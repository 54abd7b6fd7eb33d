//! Symbol data as a tree shaped like its type tree.
use crate::data_types::symbol_tree::extended_f64_bits;
use crate::le::{signed, u16_le, u32_le, u64_le};
use crate::ordmap::{entries_view, find_key, insert_entry, lemma_key_index, seq_get, seq_insert_all};
use crate::strs::{split, split_chars, string_from_chars, utf16_lossy, utf8_lossy};
use crate::symbol::map::words_of;
use crate::symbol::type_tree::{lemma_struct_view, SymbolTypeTree, TypeTreeView};
use crate::timestamp::{valid_parts, Timestamp, TimestampParts};
use vstd::prelude::*;

verus! {

/// A tree of ADS symbol data. Floating-point values are kept as their raw
/// bits: `Real` and `Lreal` by their IEEE 754 bits, `Real80` by the bits of
/// the double nearest to the 80-bit value.
#[derive(Debug, PartialEq)]
pub enum SymbolTree {
    Missing,
    Malformed,
    Struct(Vec<(String, SymbolTree)>),
    /// Not fully supported: holds the raw bytes.
    Array(Vec<SymbolTree>),
    Void(Vec<u8>),
    Int(i16),
    Dint(i32),
    Real(u32),
    Lreal(u64),
    Sint(i8),
    Usint(u8),
    Uint(u16),
    Udint(u32),
    Lint(i64),
    Ulint(u64),
    String(String),
    Real80(u64),
    Bool(bool),
    Unknown,
}

/// The mathematical value of a `SymbolTree`.
pub enum TreeView {
    Missing,
    Malformed,
    Struct(Seq<(Seq<char>, TreeView)>),
    Array(Seq<TreeView>),
    Void(Seq<u8>),
    Int(i16),
    Dint(i32),
    Real(u32),
    Lreal(u64),
    Sint(i8),
    Usint(u8),
    Uint(u16),
    Udint(u32),
    Lint(i64),
    Ulint(u64),
    String(Seq<char>),
    Real80(u64),
    Bool(bool),
    Unknown,
}

pub open spec fn tree_view(t: SymbolTree) -> TreeView
    decreases t,
{
    match t {
        SymbolTree::Missing => TreeView::Missing,
        SymbolTree::Malformed => TreeView::Malformed,
        SymbolTree::Struct(fs) => TreeView::Struct(
            Seq::new(
                fs@.len(),
                |i: int|
                    if 0 <= i < fs@.len() {
                        (fs@[i].0@, tree_view(fs@[i].1))
                    } else {
                        (Seq::empty(), TreeView::Missing)
                    },
            ),
        ),
        SymbolTree::Array(items) => TreeView::Array(
            Seq::new(
                items@.len(),
                |i: int|
                    if 0 <= i < items@.len() {
                        tree_view(items@[i])
                    } else {
                        TreeView::Missing
                    },
            ),
        ),
        SymbolTree::Void(b) => TreeView::Void(b@),
        SymbolTree::Int(v) => TreeView::Int(v),
        SymbolTree::Dint(v) => TreeView::Dint(v),
        SymbolTree::Real(v) => TreeView::Real(v),
        SymbolTree::Lreal(v) => TreeView::Lreal(v),
        SymbolTree::Sint(v) => TreeView::Sint(v),
        SymbolTree::Usint(v) => TreeView::Usint(v),
        SymbolTree::Uint(v) => TreeView::Uint(v),
        SymbolTree::Udint(v) => TreeView::Udint(v),
        SymbolTree::Lint(v) => TreeView::Lint(v),
        SymbolTree::Ulint(v) => TreeView::Ulint(v),
        SymbolTree::String(s) => TreeView::String(s@),
        SymbolTree::Real80(bits) => TreeView::Real80(bits),
        SymbolTree::Bool(b) => TreeView::Bool(b),
        SymbolTree::Unknown => TreeView::Unknown,
    }
}

impl View for SymbolTree {
    type V = TreeView;

    open spec fn view(&self) -> TreeView {
        tree_view(*self)
    }
}

proof fn lemma_tree_struct_view(fs: Vec<(String, SymbolTree)>)
    ensures
        SymbolTree::Struct(fs)@ == TreeView::Struct(entries_view(fs@)),
{
    let v = SymbolTree::Struct(fs)@;
    assert(v->Struct_0 =~= entries_view(fs@));
}

/// The tree that `data` holds for type `t` placed at `off`. Each field of a
/// struct is decoded at the struct's offset plus its own (a field with no
/// offset is `Missing`), the fields inserted in order; an offset past the
/// end of the data gives `Missing`; numbers are read little-endian, and one
/// that does not fit in the remaining bytes is `Malformed`.
pub open spec fn tree_of(data: Seq<u8>, t: TypeTreeView, off: int) -> TreeView
    decreases t, 0int,
{
    if off > data.len() {
        TreeView::Missing
    } else {
        let acc = data.skip(off);
        match t {
            TypeTreeView::Struct(fs, _) => TreeView::Struct(
                seq_insert_all(Seq::empty(), fields_of(data, fs, off)),
            ),
            TypeTreeView::Array(_, size) => TreeView::Array(
                seq![TreeView::Void(acc.take(size as int))],
            ),
            TypeTreeView::Void(size) => TreeView::Void(acc.take(size as int)),
            TypeTreeView::Int => if acc.len() >= 2 {
                TreeView::Int(signed(u16_le(acc), 32768) as i16)
            } else {
                TreeView::Malformed
            },
            TypeTreeView::Dint => if acc.len() >= 4 {
                TreeView::Dint(signed(u32_le(acc), 0x8000_0000) as i32)
            } else {
                TreeView::Malformed
            },
            TypeTreeView::Real => if acc.len() >= 4 {
                TreeView::Real(u32_le(acc) as u32)
            } else {
                TreeView::Malformed
            },
            TypeTreeView::Lreal => if acc.len() >= 8 {
                TreeView::Lreal(u64_le(acc) as u64)
            } else {
                TreeView::Malformed
            },
            TypeTreeView::Sint => if acc.len() >= 1 {
                TreeView::Sint(signed(acc[0] as int, 128) as i8)
            } else {
                TreeView::Malformed
            },
            TypeTreeView::Usint => if acc.len() >= 1 {
                TreeView::Usint(acc[0])
            } else {
                TreeView::Malformed
            },
            TypeTreeView::Uint => if acc.len() >= 2 {
                TreeView::Uint(u16_le(acc) as u16)
            } else {
                TreeView::Malformed
            },
            TypeTreeView::Udint => if acc.len() >= 4 {
                TreeView::Udint(u32_le(acc) as u32)
            } else {
                TreeView::Malformed
            },
            TypeTreeView::Lint => if acc.len() >= 8 {
                TreeView::Lint(signed(u64_le(acc), 0x8000_0000_0000_0000) as i64)
            } else {
                TreeView::Malformed
            },
            TypeTreeView::Ulint => if acc.len() >= 8 {
                TreeView::Ulint(u64_le(acc) as u64)
            } else {
                TreeView::Malformed
            },
            TypeTreeView::String(size) => TreeView::String(utf8_lossy(acc.take(size as int))),
            TypeTreeView::Wstring(size) => if size % 2 != 0 {
                TreeView::Malformed
            } else {
                TreeView::String(utf16_lossy(words_of(acc, size as int / 2)))
            },
            TypeTreeView::Real80 => if acc.len() < 10 {
                TreeView::Malformed
            } else {
                TreeView::Real80(extended_f64_bits(acc.take(10)))
            },
            TypeTreeView::Bool => if acc.len() >= 1 {
                TreeView::Bool(acc[0] != 0)
            } else {
                TreeView::Malformed
            },
            TypeTreeView::Compound(_) => TreeView::Malformed,
            TypeTreeView::Unknown(_) => TreeView::Unknown,
            TypeTreeView::Missing => TreeView::Missing,
        }
    }
}

/// Each field's name with its decoded subtree.
pub open spec fn fields_of(
    data: Seq<u8>,
    fs: Seq<(Seq<char>, (TypeTreeView, Option<u32>))>,
    off: int,
) -> Seq<(Seq<char>, TreeView)>
    decreases fs, 1int,
{
    Seq::new(
        fs.len(),
        |i: int|
            if 0 <= i < fs.len() {
                (
                    fs[i].0,
                    match fs[i].1.1 {
                        Some(o) => tree_of(data, fs[i].1.0, off + o),
                        None => TreeView::Missing,
                    },
                )
            } else {
                (Seq::empty(), TreeView::Missing)
            },
    )
}

/// The inputs on which decoding stays within the data: every raw or text
/// run it slices fits in the bytes after its offset, and offsets do not
/// overflow.
pub open spec fn tree_in_bounds(len: int, t: TypeTreeView, off: int) -> bool
    decreases t, 0int,
{
    off > len || match t {
        TypeTreeView::Struct(fs, _) => forall|i: int|
            0 <= i < fs.len() ==> match #[trigger] fs[i].1.1 {
                Some(o) => off + o <= usize::MAX && tree_in_bounds(len, fs[i].1.0, off + o),
                None => true,
            },
        TypeTreeView::Array(_, size) => size <= len - off,
        TypeTreeView::Void(size) => size <= len - off,
        TypeTreeView::String(size) => size <= len - off,
        TypeTreeView::Wstring(size) => size % 2 != 0 || size <= len - off,
        _ => true,
    }
}

impl SymbolTree {
    /// Decodes the data of a symbol of type `symbol_type_tree` placed at
    /// `parent_offset` in `data`.
    pub fn from_bytes(data: &[u8], symbol_type_tree: &SymbolTypeTree, parent_offset: usize) -> (t:
        Self)
        requires
            tree_in_bounds(data@.len() as int, symbol_type_tree@, parent_offset as int),
        ensures
            t@ == tree_of(data@, symbol_type_tree@, parent_offset as int),
        decreases symbol_type_tree,
    {
        if parent_offset > data.len() {
            return SymbolTree::Missing;
        }
        let accessible_data: &[u8] = &data[parent_offset..data.len()];
        assert(accessible_data@ =~= data@.skip(parent_offset as int));
        let n = accessible_data.len();
        match symbol_type_tree {
            SymbolTypeTree::Struct(tree_type_map, size) => {
                proof {
                    lemma_struct_view(*tree_type_map, *size);
                }
                let ghost fs = entries_view(tree_type_map@);
                let ghost all = fields_of(data@, fs, parent_offset as int);
                let mut tree_map: Vec<(String, SymbolTree)> = Vec::new();
                let mut i: usize = 0;
                assert(all.take(0) =~= Seq::<(Seq<char>, TreeView)>::empty());
                while i < tree_type_map.len()
                    invariant
                        fs == entries_view(tree_type_map@),
                        fs.len() == tree_type_map@.len(),
                        all == fields_of(data@, fs, parent_offset as int),
                        i <= fs.len(),
                        parent_offset <= data@.len(),
                        *symbol_type_tree == SymbolTypeTree::Struct(*tree_type_map, *size),
                        symbol_type_tree@ == TypeTreeView::Struct(fs, *size),
                        tree_in_bounds(data@.len() as int, symbol_type_tree@, parent_offset as int),
                        entries_view(tree_map@) == seq_insert_all(Seq::empty(), all.take(i as int)),
                    decreases fs.len() - i,
                {
                    let entry = &tree_type_map[i];
                    assert(fs[i as int] == (entry.0@, (entry.1.0@, entry.1.1)));
                    assert(fs[i as int].1.1 == entry.1.1);
                    assert(match fs[i as int].1.1 {
                        Some(o) => parent_offset + o <= usize::MAX && tree_in_bounds(
                            data@.len() as int,
                            fs[i as int].1.0,
                            parent_offset + o,
                        ),
                        None => true,
                    });
                    let name = entry.0.clone();
                    let child = match entry.1.1 {
                        Some(offset) => {
                            assert(decreases_to!(*symbol_type_tree => *tree_type_map));
                            assert(decreases_to!(*tree_type_map => tree_type_map@));
                            assert(decreases_to!(tree_type_map@ => tree_type_map@[i as int]));
                            SymbolTree::from_bytes(data, &entry.1.0, parent_offset + offset as usize)
                        },
                        None => SymbolTree::Missing,
                    };
                    insert_entry(&mut tree_map, name, child);
                    assert(all.take(i + 1).drop_last() =~= all.take(i as int));
                    i = i + 1;
                }
                assert(all.take(fs.len() as int) =~= all);
                proof {
                    lemma_tree_struct_view(tree_map);
                }
                SymbolTree::Struct(tree_map)
            },
            // Arrays are not fully supported, but this at least provides the raw data.
            SymbolTypeTree::Array(_symbol_type_tree, size) => {
                let raw = crate::le::copy_bytes(&accessible_data[0..*size]);
                assert(raw@ =~= accessible_data@.take(*size as int));
                let mut items: Vec<SymbolTree> = Vec::new();
                let item = SymbolTree::Void(raw);
                assert(item@ == TreeView::Void(accessible_data@.take(*size as int)));
                items.push(item);
                assert(items@[0]@ == TreeView::Void(accessible_data@.take(*size as int)));
                let t = SymbolTree::Array(items);
                assert(t@->Array_0 =~= seq![TreeView::Void(accessible_data@.take(*size as int))]);
                t
            },
            SymbolTypeTree::Void(size) => {
                let raw = crate::le::copy_bytes(&accessible_data[0..*size]);
                assert(raw@ =~= accessible_data@.take(*size as int));
                SymbolTree::Void(raw)
            },
            SymbolTypeTree::Int => if n >= 2 {
                let u = crate::le::read_u16_le(accessible_data);
                SymbolTree::Int(
                    if u < 32768 {
                        u as i16
                    } else {
                        (u as i32 - 65536) as i16
                    },
                )
            } else {
                SymbolTree::Malformed
            },
            SymbolTypeTree::Dint => if n >= 4 {
                let u = crate::le::read_u32_le(accessible_data);
                SymbolTree::Dint(
                    if u < 0x8000_0000 {
                        u as i32
                    } else {
                        (u as i64 - 0x1_0000_0000) as i32
                    },
                )
            } else {
                SymbolTree::Malformed
            },
            SymbolTypeTree::Real => if n >= 4 {
                SymbolTree::Real(crate::le::read_u32_le(accessible_data))
            } else {
                SymbolTree::Malformed
            },
            SymbolTypeTree::Lreal => if n >= 8 {
                SymbolTree::Lreal(crate::le::read_u64_le(accessible_data))
            } else {
                SymbolTree::Malformed
            },
            SymbolTypeTree::Sint => if n >= 1 {
                let u = accessible_data[0];
                SymbolTree::Sint(
                    if u < 128 {
                        u as i8
                    } else {
                        (u as i16 - 256) as i8
                    },
                )
            } else {
                SymbolTree::Malformed
            },
            SymbolTypeTree::Usint => if n >= 1 {
                SymbolTree::Usint(accessible_data[0])
            } else {
                SymbolTree::Malformed
            },
            SymbolTypeTree::Uint => if n >= 2 {
                SymbolTree::Uint(crate::le::read_u16_le(accessible_data))
            } else {
                SymbolTree::Malformed
            },
            SymbolTypeTree::Udint => if n >= 4 {
                SymbolTree::Udint(crate::le::read_u32_le(accessible_data))
            } else {
                SymbolTree::Malformed
            },
            SymbolTypeTree::Lint => if n >= 8 {
                let u = crate::le::read_u64_le(accessible_data);
                SymbolTree::Lint(
                    if u < 0x8000_0000_0000_0000 {
                        u as i64
                    } else {
                        (u - 0x8000_0000_0000_0000) as i64 + i64::MIN
                    },
                )
            } else {
                SymbolTree::Malformed
            },
            SymbolTypeTree::Ulint => if n >= 8 {
                SymbolTree::Ulint(crate::le::read_u64_le(accessible_data))
            } else {
                SymbolTree::Malformed
            },
            SymbolTypeTree::String(size) => {
                let text = &accessible_data[0..*size];
                assert(text@ =~= accessible_data@.take(*size as int));
                SymbolTree::String(crate::strs::string_from_utf8_lossy(text))
            },
            SymbolTypeTree::Wstring(size) => {
                let size = *size;
                if size % 2 != 0 {
                    return SymbolTree::Malformed;
                }
                let mut words: Vec<u16> = Vec::new();
                let mut i: usize = 0;
                while i < size
                    invariant
                        size % 2 == 0,
                        size <= accessible_data@.len(),
                        i % 2 == 0,
                        i <= size,
                        words@ =~= words_of(accessible_data@, i as int / 2),
                    decreases size - i,
                {
                    let word = crate::le::read_u16_le(&accessible_data[i..i + 2]);
                    assert(accessible_data@.subrange(i as int, i + 2) =~= accessible_data@.skip(
                        2 * (i as int / 2),
                    ).take(2));
                    words.push(word);
                    i = i + 2;
                }
                SymbolTree::String(crate::strs::string_from_utf16_lossy(words.as_slice()))
            },
            SymbolTypeTree::Real80 => {
                if n < 10 {
                    return SymbolTree::Malformed;
                }
                let buffer = crate::data_types::symbol_tree::first_ten(accessible_data);
                SymbolTree::Real80(crate::data_types::symbol_tree::extended_to_f64_bits(buffer))
            },
            SymbolTypeTree::Bool => if n >= 1 {
                SymbolTree::Bool(accessible_data[0] != 0)
            } else {
                SymbolTree::Malformed
            },
            SymbolTypeTree::Compound(_) => SymbolTree::Malformed,
            SymbolTypeTree::Unknown(_) => SymbolTree::Unknown,
            SymbolTypeTree::Missing => SymbolTree::Missing,
        }
    }
}

/// Whether decoding `data_len` bytes as type `t` placed at `offset` stays
/// within the bytes (see `tree_in_bounds`), so that `SymbolTree::from_bytes`
/// may be called.
pub fn tree_fits(data_len: usize, t: &SymbolTypeTree, offset: usize) -> (r: bool)
    ensures
        r == tree_in_bounds(data_len as int, t@, offset as int),
    decreases t,
{
    if offset > data_len {
        return true;
    }
    match t {
        SymbolTypeTree::Struct(fields, size) => {
            proof {
                lemma_struct_view(*fields, *size);
            }
            let ghost fs = entries_view(fields@);
            let mut i: usize = 0;
            while i < fields.len()
                invariant
                    fs == entries_view(fields@),
                    fs.len() == fields@.len(),
                    *t == SymbolTypeTree::Struct(*fields, *size),
                    t@ == TypeTreeView::Struct(fs, *size),
                    offset <= data_len,
                    i <= fs.len(),
                    forall|j: int|
                        0 <= j < i ==> match #[trigger] fs[j].1.1 {
                            Some(o) => offset + o <= usize::MAX && tree_in_bounds(
                                data_len as int,
                                fs[j].1.0,
                                offset + o,
                            ),
                            None => true,
                        },
                decreases fs.len() - i,
            {
                let entry = &fields[i];
                assert(fs[i as int] == (entry.0@, (entry.1.0@, entry.1.1)));
                if let Some(o) = entry.1.1 {
                    assert(fs[i as int].1.1 == Some(o));
                    if o as usize > usize::MAX - offset {
                        assert(!tree_in_bounds(data_len as int, t@, offset as int));
                        return false;
                    }
                    assert(decreases_to!(*t => *fields));
                    assert(decreases_to!(*fields => fields@));
                    assert(decreases_to!(fields@ => fields@[i as int]));
                    if !tree_fits(data_len, &entry.1.0, offset + o as usize) {
                        assert(!tree_in_bounds(data_len as int, t@, offset as int));
                        return false;
                    }
                }
                i = i + 1;
            }
            true
        },
        SymbolTypeTree::Array(_, size) => *size <= data_len - offset,
        SymbolTypeTree::Void(size) => *size <= data_len - offset,
        SymbolTypeTree::String(size) => *size <= data_len - offset,
        SymbolTypeTree::Wstring(size) => *size % 2 != 0 || *size <= data_len - offset,
        _ => true,
    }
}

/// The subtree at the path `tokens` (one field name per level); `Missing`
/// when some level is not a struct or has no such field.
pub open spec fn tree_child(t: TreeView, tokens: Seq<Seq<char>>) -> TreeView
    decreases tokens.len(),
{
    if tokens.len() == 0 {
        t
    } else {
        match t {
            TreeView::Struct(fs) => match seq_get(fs, tokens[0]) {
                Some(child) => tree_child(child, tokens.drop_first()),
                None => TreeView::Missing,
            },
            _ => TreeView::Missing,
        }
    }
}

/// The `Uint` word called `name` in a struct's fields, if there is one.
pub open spec fn uint_field(fs: Seq<(Seq<char>, TreeView)>, name: Seq<char>) -> Option<u16> {
    match seq_get(fs, name) {
        Some(TreeView::Uint(v)) => Some(v),
        _ => None,
    }
}

/// The date-time a TIMESTRUCT subtree holds: its `wYear`, `wMonth`, `wDay`,
/// `wHour`, `wMinute`, `wSecond` and `wMilliseconds` words, when each is
/// present as a `Uint` and together they name an existing date-time.
pub open spec fn timestamp_of(t: TreeView) -> Option<TimestampParts> {
    match t {
        TreeView::Struct(fs) => {
            if uint_field(fs, "wYear"@) is Some && uint_field(fs, "wMonth"@) is Some && uint_field(
                fs,
                "wDay"@,
            ) is Some && uint_field(fs, "wHour"@) is Some && uint_field(fs, "wMinute"@) is Some
                && uint_field(fs, "wSecond"@) is Some && uint_field(fs, "wMilliseconds"@) is Some {
                let parts = TimestampParts {
                    year: uint_field(fs, "wYear"@)->0,
                    month: uint_field(fs, "wMonth"@)->0,
                    day: uint_field(fs, "wDay"@)->0,
                    hour: uint_field(fs, "wHour"@)->0,
                    minute: uint_field(fs, "wMinute"@)->0,
                    second: uint_field(fs, "wSecond"@)->0,
                    millisecond: uint_field(fs, "wMilliseconds"@)->0,
                };
                if valid_parts(parts) {
                    Some(parts)
                } else {
                    None
                }
            } else {
                None
            }
        },
        _ => None,
    }
}

/// Reads the `Uint` word called `name` among `fs`.
fn get_uint_field(fs: &Vec<(String, SymbolTree)>, name: &str) -> (r: Option<u16>)
    ensures
        r == uint_field(entries_view(fs@), name@),
{
    match find_key(fs, name) {
        Some(i) => {
            proof {
                lemma_key_index(entries_view(fs@), name@, i as int);
            }
            assert(entries_view(fs@)[i as int].1 == fs@[i as int].1@);
            match &fs[i].1 {
                SymbolTree::Uint(v) => Some(*v),
                _ => None,
            }
        },
        None => None,
    }
}

impl SymbolTree {
    /// The subtree at a period-separated path of field names below this
    /// tree; `Missing` when the path leaves the tree.
    pub fn get_child(&self, symbol_path: &str) -> (r: &SymbolTree)
        ensures
            r@ == tree_child(self@, split(symbol_path@, '.')),
    {
        let tokens = split_chars(symbol_path, '.');
        let ghost toks = split(symbol_path@, '.');
        let mut current = self;
        let mut k: usize = 0;
        assert(toks.skip(0) =~= toks);
        while k < tokens.len()
            invariant
                k <= tokens@.len(),
                toks == split(symbol_path@, '.'),
                tokens@.len() == toks.len(),
                forall|i: int| 0 <= i < tokens@.len() ==> #[trigger] tokens@[i]@ == toks[i],
                tree_child(self@, toks) == tree_child(current@, toks.skip(k as int)),
            decreases tokens@.len() - k,
        {
            let token = string_from_chars(tokens[k].as_slice());
            assert(toks.skip(k as int).drop_first() =~= toks.skip(k + 1));
            assert(toks.skip(k as int)[0] == toks[k as int]);
            assert(toks.skip(k as int).len() > 0);
            match current {
                SymbolTree::Struct(children) => {
                    proof {
                        lemma_tree_struct_view(*children);
                    }
                    match find_key(children, token.as_str()) {
                        Some(i) => {
                            proof {
                                lemma_key_index(entries_view(children@), token@, i as int);
                            }
                            current = &children[i].1;
                        },
                        None => {
                            assert(tree_view(SymbolTree::Missing) == TreeView::Missing);
                            return &SymbolTree::Missing;
                        },
                    }
                },
                _ => {
                    assert(current@ !is Struct);
                    assert(tree_view(SymbolTree::Missing) == TreeView::Missing);
                    return &SymbolTree::Missing;
                },
            }
            k = k + 1;
        }
        assert(toks.skip(k as int) =~= Seq::<Seq<char>>::empty());
        current
    }

    /// The date-time held by the TIMESTRUCT at `path`, if it holds one.
    pub fn get_timestamp(&self, path: &str) -> (r: Option<Timestamp>)
        ensures
            match r {
                Some(t) => timestamp_of(tree_child(self@, split(path@, '.'))) == Some(t.parts()),
                None => timestamp_of(tree_child(self@, split(path@, '.'))) is None,
            },
    {
        let child = self.get_child(path);
        match child {
            SymbolTree::Struct(map) => {
                proof {
                    lemma_tree_struct_view(*map);
                }
                let year = match get_uint_field(map, "wYear") {
                    Some(v) => v,
                    None => return None,
                };
                let month = match get_uint_field(map, "wMonth") {
                    Some(v) => v,
                    None => return None,
                };
                let day = match get_uint_field(map, "wDay") {
                    Some(v) => v,
                    None => return None,
                };
                let hour = match get_uint_field(map, "wHour") {
                    Some(v) => v,
                    None => return None,
                };
                let minute = match get_uint_field(map, "wMinute") {
                    Some(v) => v,
                    None => return None,
                };
                let second = match get_uint_field(map, "wSecond") {
                    Some(v) => v,
                    None => return None,
                };
                let milliseconds = match get_uint_field(map, "wMilliseconds") {
                    Some(v) => v,
                    None => return None,
                };
                Timestamp::from_parts(year, month, day, hour, minute, second, milliseconds)
            },
            _ => None,
        }
    }
}

/// An error in turning a symbol tree into another type.
#[derive(Debug)]
pub enum Error {
    Deserialisation(String),
}


/// Following a path and then another is following the two one after the
/// other.
pub proof fn lemma_tree_child_append(t: TreeView, xs: Seq<Seq<char>>, ys: Seq<Seq<char>>)
    ensures
        tree_child(t, xs + ys) == tree_child(tree_child(t, xs), ys),
    decreases xs.len(),
{
    if xs.len() == 0 {
        assert(xs + ys =~= ys);
    } else {
        assert((xs + ys).drop_first() =~= xs.drop_first() + ys);
        assert((xs + ys)[0] == xs[0]);
        match t {
            TreeView::Struct(fs) => match seq_get(fs, xs[0]) {
                Some(child) => lemma_tree_child_append(child, xs.drop_first(), ys),
                None => lemma_tree_child_missing(ys),
            },
            _ => lemma_tree_child_missing(ys),
        }
    }
}

proof fn lemma_tree_child_missing(ys: Seq<Seq<char>>)
    ensures
        tree_child(TreeView::Missing, ys) == TreeView::Missing,
{
}

/// The subtree at the path `p.q` is the subtree at `q` of the subtree at
/// `p`.
pub proof fn lemma_tree_get_child_join(t: TreeView, p: Seq<char>, q: Seq<char>)
    ensures
        tree_child(t, split(p + seq!['.'] + q, '.')) == tree_child(
            tree_child(t, split(p, '.')),
            split(q, '.'),
        ),
{
    crate::strs::lemma_split_join(p, '.', q);
    lemma_tree_child_append(t, split(p, '.'), split(q, '.'));
}

} // verus!
