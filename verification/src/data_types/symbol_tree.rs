//! Symbol data decoded as a tree shaped like its type tree, in the layout
//! that notification samples use: every leaf is read from the start of the
//! sample's data.
use crate::le::{signed, u16_le, u32_le, u64_le};
use crate::ordmap::{entries_view, insert_entry, seq_insert_all};
use crate::strs::{utf16_lossy, utf8_lossy};
use crate::symbol::map::words_of;
use crate::symbol::type_tree::{lemma_struct_view, SymbolTypeTree, TypeTreeView};
use vstd::prelude::*;

verus! {

/// A tree of symbol data. Floating-point values are held as their IEEE 754
/// bits; an 80-bit `Real80` is converted to the bits of the nearest 64-bit
/// float and held as `Lreal`.
#[derive(Debug, PartialEq)]
pub enum SymbolTree {
    Missing,
    Malformed,
    Struct(Vec<(String, SymbolTree)>),
    Array(Vec<SymbolTree>),
    Void(Vec<u8>),
    Int(i16),
    Dint(i32),
    Real(u32),
    Lreal(u64),
    Sint(i8),
    Usint(u8),
    Uint(u16),
    Udint(u32),
    Lint(i64),
    Ulint(u64),
    String(String),
    /// An 80-bit float by its sign-and-exponent word and its 64-bit fraction.
    Wstring { sign_exponent: u16, fraction: u64 },
    Bool(bool),
    Unknown,
}

/// The mathematical value of a `SymbolTree`.
pub enum TreeView {
    Missing,
    Malformed,
    Struct(Seq<(Seq<char>, TreeView)>),
    Array(Seq<TreeView>),
    Void(Seq<u8>),
    Int(i16),
    Dint(i32),
    Real(u32),
    Lreal(u64),
    Sint(i8),
    Usint(u8),
    Uint(u16),
    Udint(u32),
    Lint(i64),
    Ulint(u64),
    String(Seq<char>),
    Wstring { sign_exponent: u16, fraction: u64 },
    Bool(bool),
    Unknown,
}

pub open spec fn tree_view(t: SymbolTree) -> TreeView
    decreases t,
{
    match t {
        SymbolTree::Missing => TreeView::Missing,
        SymbolTree::Malformed => TreeView::Malformed,
        SymbolTree::Struct(fs) => TreeView::Struct(
            Seq::new(
                fs@.len(),
                |i: int|
                    if 0 <= i < fs@.len() {
                        (fs@[i].0@, tree_view(fs@[i].1))
                    } else {
                        (Seq::empty(), TreeView::Missing)
                    },
            ),
        ),
        SymbolTree::Array(items) => TreeView::Array(
            Seq::new(
                items@.len(),
                |i: int|
                    if 0 <= i < items@.len() {
                        tree_view(items@[i])
                    } else {
                        TreeView::Missing
                    },
            ),
        ),
        SymbolTree::Void(b) => TreeView::Void(b@),
        SymbolTree::Int(v) => TreeView::Int(v),
        SymbolTree::Dint(v) => TreeView::Dint(v),
        SymbolTree::Real(v) => TreeView::Real(v),
        SymbolTree::Lreal(v) => TreeView::Lreal(v),
        SymbolTree::Sint(v) => TreeView::Sint(v),
        SymbolTree::Usint(v) => TreeView::Usint(v),
        SymbolTree::Uint(v) => TreeView::Uint(v),
        SymbolTree::Udint(v) => TreeView::Udint(v),
        SymbolTree::Lint(v) => TreeView::Lint(v),
        SymbolTree::Ulint(v) => TreeView::Ulint(v),
        SymbolTree::String(s) => TreeView::String(s@),
        SymbolTree::Wstring { sign_exponent, fraction } => TreeView::Wstring {
            sign_exponent,
            fraction,
        },
        SymbolTree::Bool(b) => TreeView::Bool(b),
        SymbolTree::Unknown => TreeView::Unknown,
    }
}

impl View for SymbolTree {
    type V = TreeView;

    open spec fn view(&self) -> TreeView {
        tree_view(*self)
    }
}

proof fn lemma_tree_struct_view(fs: Vec<(String, SymbolTree)>)
    ensures
        SymbolTree::Struct(fs)@ == TreeView::Struct(entries_view(fs@)),
{
    let v = SymbolTree::Struct(fs)@;
    assert(v->Struct_0 =~= entries_view(fs@));
}

/// The bits of the 64-bit float nearest to the 80-bit float whose ten
/// little-endian bytes are given.
pub uninterp spec fn extended_f64_bits(bytes: Seq<u8>) -> u64;

/// `extended::Extended::from_le_bytes(bytes).to_f64()`, by its bits: the
/// crate's conversion of an 80-bit float (64-bit fraction, then the
/// sign-and-exponent word) to the nearest 64-bit float, out-of-range values
/// going to infinity or zero. The result depends on the bytes alone.
#[verifier::external_body]
pub(crate) fn extended_to_f64_bits(bytes: [u8; 10]) -> (r: u64)
    ensures
        r == extended_f64_bits(bytes@),
{
    extended::Extended::from_le_bytes(bytes).to_f64().to_bits()
}

/// The ten bytes at the start of `data`.
pub(crate) fn first_ten(data: &[u8]) -> (r: [u8; 10])
    requires
        data@.len() >= 10,
    ensures
        r@ == data@.take(10),
{
    let r = [data[0], data[1], data[2], data[3], data[4], data[5], data[6], data[7], data[8], data[9]];
    assert(r@ =~= data@.take(10));
    r
}

/// The tree that `data` holds for type `t`. Every leaf is read from the
/// start of `data`, whatever its field offset; a field with no offset is
/// `Missing`, and the fields are inserted in order. Numbers are read
/// little-endian, and one that does not fit in the data is `Malformed`; a
/// `Bool` is true unless its byte is 1, and needs exactly one byte of data.
pub open spec fn tree_of(data: Seq<u8>, t: TypeTreeView) -> TreeView
    decreases t, 0int,
{
    match t {
        TypeTreeView::Struct(fs, _) => TreeView::Struct(
            seq_insert_all(Seq::empty(), fields_of(data, fs)),
        ),
        TypeTreeView::Array(_, size) => TreeView::Array(seq![TreeView::Void(data.take(size as int))]),
        TypeTreeView::Void(size) => TreeView::Void(data.take(size as int)),
        TypeTreeView::Int => if data.len() >= 2 {
            TreeView::Int(signed(u16_le(data), 32768) as i16)
        } else {
            TreeView::Malformed
        },
        TypeTreeView::Dint => if data.len() >= 4 {
            TreeView::Dint(signed(u32_le(data), 0x8000_0000) as i32)
        } else {
            TreeView::Malformed
        },
        TypeTreeView::Real => if data.len() >= 4 {
            TreeView::Real(u32_le(data) as u32)
        } else {
            TreeView::Malformed
        },
        TypeTreeView::Lreal => if data.len() >= 8 {
            TreeView::Lreal(u64_le(data) as u64)
        } else {
            TreeView::Malformed
        },
        TypeTreeView::Sint => if data.len() >= 1 {
            TreeView::Sint(signed(data[0] as int, 128) as i8)
        } else {
            TreeView::Malformed
        },
        TypeTreeView::Usint => if data.len() >= 1 {
            TreeView::Usint(data[0])
        } else {
            TreeView::Malformed
        },
        TypeTreeView::Uint => if data.len() >= 2 {
            TreeView::Uint(u16_le(data) as u16)
        } else {
            TreeView::Malformed
        },
        TypeTreeView::Udint => if data.len() >= 4 {
            TreeView::Udint(u32_le(data) as u32)
        } else {
            TreeView::Malformed
        },
        TypeTreeView::Lint => if data.len() >= 8 {
            TreeView::Lint(signed(u64_le(data), 0x8000_0000_0000_0000) as i64)
        } else {
            TreeView::Malformed
        },
        TypeTreeView::Ulint => if data.len() >= 8 {
            TreeView::Ulint(u64_le(data) as u64)
        } else {
            TreeView::Malformed
        },
        TypeTreeView::String(size) => TreeView::String(utf8_lossy(data.take(size as int))),
        TypeTreeView::Wstring(size) => if size % 2 != 0 {
            TreeView::Malformed
        } else {
            TreeView::String(utf16_lossy(words_of(data, size as int / 2)))
        },
        TypeTreeView::Real80 => if data.len() < 10 {
            TreeView::Malformed
        } else {
            TreeView::Lreal(extended_f64_bits(data.take(10)))
        },
        TypeTreeView::Bool => if data.len() == 1 {
            TreeView::Bool(data[0] != 1)
        } else {
            TreeView::Malformed
        },
        TypeTreeView::Compound(_) => TreeView::Malformed,
        TypeTreeView::Unknown(_) => TreeView::Unknown,
        TypeTreeView::Missing => TreeView::Missing,
    }
}

/// Each field's name with its decoded subtree.
pub open spec fn fields_of(data: Seq<u8>, fs: Seq<(Seq<char>, (TypeTreeView, Option<u32>))>) -> Seq<
    (Seq<char>, TreeView),
>
    decreases fs, 1int,
{
    Seq::new(
        fs.len(),
        |i: int|
            if 0 <= i < fs.len() {
                (
                    fs[i].0,
                    match fs[i].1.1 {
                        Some(o) => tree_of(data, fs[i].1.0),
                        None => TreeView::Missing,
                    },
                )
            } else {
                (Seq::empty(), TreeView::Missing)
            },
    )
}

/// The inputs on which decoding stays within the data: every raw or text
/// run it slices fits in the data, and the field offsets, summed from
/// `off` down the tree, do not overflow.
pub open spec fn tree_in_bounds(len: int, t: TypeTreeView, off: int) -> bool
    decreases t, 0int,
{
    match t {
        TypeTreeView::Struct(fs, _) => forall|i: int|
            0 <= i < fs.len() ==> match #[trigger] fs[i].1.1 {
                Some(o) => off + o <= usize::MAX && tree_in_bounds(len, fs[i].1.0, off + o),
                None => true,
            },
        TypeTreeView::Array(_, size) => size <= len,
        TypeTreeView::Void(size) => size <= len,
        TypeTreeView::String(size) => size <= len,
        TypeTreeView::Wstring(size) => size % 2 != 0 || size <= len,
        _ => true,
    }
}

/// Whether decoding `data_len` bytes as type `t`, with field offsets summed
/// from `offset`, stays within the bytes (see `tree_in_bounds`), so that
/// `SymbolTree::from_type_tree` may be called.
pub fn tree_fits(data_len: usize, t: &SymbolTypeTree, offset: usize) -> (r: bool)
    ensures
        r == tree_in_bounds(data_len as int, t@, offset as int),
    decreases t,
{
    match t {
        SymbolTypeTree::Struct(fields, size) => {
            proof {
                lemma_struct_view(*fields, *size);
            }
            let ghost fs = entries_view(fields@);
            let mut i: usize = 0;
            while i < fields.len()
                invariant
                    fs == entries_view(fields@),
                    fs.len() == fields@.len(),
                    *t == SymbolTypeTree::Struct(*fields, *size),
                    t@ == TypeTreeView::Struct(fs, *size),
                    i <= fs.len(),
                    forall|j: int|
                        0 <= j < i ==> match #[trigger] fs[j].1.1 {
                            Some(o) => offset + o <= usize::MAX && tree_in_bounds(
                                data_len as int,
                                fs[j].1.0,
                                offset + o,
                            ),
                            None => true,
                        },
                decreases fs.len() - i,
            {
                let entry = &fields[i];
                assert(fs[i as int] == (entry.0@, (entry.1.0@, entry.1.1)));
                if let Some(o) = entry.1.1 {
                    assert(fs[i as int].1.1 == Some(o));
                    if o as usize > usize::MAX - offset {
                        assert(!tree_in_bounds(data_len as int, t@, offset as int));
                        return false;
                    }
                    assert(decreases_to!(*t => *fields));
                    assert(decreases_to!(*fields => fields@));
                    assert(decreases_to!(fields@ => fields@[i as int]));
                    if !tree_fits(data_len, &entry.1.0, offset + o as usize) {
                        assert(!tree_in_bounds(data_len as int, t@, offset as int));
                        return false;
                    }
                }
                i = i + 1;
            }
            true
        },
        SymbolTypeTree::Array(_, size) => *size <= data_len,
        SymbolTypeTree::Void(size) => *size <= data_len,
        SymbolTypeTree::String(size) => *size <= data_len,
        SymbolTypeTree::Wstring(size) => *size % 2 != 0 || *size <= data_len,
        _ => true,
    }
}

impl SymbolTree {
    /// Decodes `data` as a value of type `symbol_type_tree`; struct fields
    /// carry their offset from `parent_offset` down the tree.
    pub fn from_type_tree(symbol_type_tree: &SymbolTypeTree, data: &[u8], parent_offset: usize) -> (t:
        Self)
        requires
            tree_in_bounds(data@.len() as int, symbol_type_tree@, parent_offset as int),
        ensures
            t@ == tree_of(data@, symbol_type_tree@),
        decreases symbol_type_tree,
    {
        let n = data.len();
        match symbol_type_tree {
            SymbolTypeTree::Struct(tree_type_map, size) => {
                proof {
                    lemma_struct_view(*tree_type_map, *size);
                }
                let ghost fs = entries_view(tree_type_map@);
                let ghost all = fields_of(data@, fs);
                let mut tree_map: Vec<(String, SymbolTree)> = Vec::new();
                let mut i: usize = 0;
                assert(all.take(0) =~= Seq::<(Seq<char>, TreeView)>::empty());
                while i < tree_type_map.len()
                    invariant
                        fs == entries_view(tree_type_map@),
                        fs.len() == tree_type_map@.len(),
                        all == fields_of(data@, fs),
                        i <= fs.len(),
                        *symbol_type_tree == SymbolTypeTree::Struct(*tree_type_map, *size),
                        symbol_type_tree@ == TypeTreeView::Struct(fs, *size),
                        tree_in_bounds(data@.len() as int, symbol_type_tree@, parent_offset as int),
                        entries_view(tree_map@) == seq_insert_all(Seq::empty(), all.take(i as int)),
                    decreases fs.len() - i,
                {
                    let entry = &tree_type_map[i];
                    assert(fs[i as int] == (entry.0@, (entry.1.0@, entry.1.1)));
                    assert(fs[i as int].1.1 == entry.1.1);
                    assert(match fs[i as int].1.1 {
                        Some(o) => parent_offset + o <= usize::MAX && tree_in_bounds(
                            data@.len() as int,
                            fs[i as int].1.0,
                            parent_offset + o,
                        ),
                        None => true,
                    });
                    let name = entry.0.clone();
                    let child = match entry.1.1 {
                        Some(offset) => {
                            assert(decreases_to!(*symbol_type_tree => *tree_type_map));
                            assert(decreases_to!(*tree_type_map => tree_type_map@));
                            assert(decreases_to!(tree_type_map@ => tree_type_map@[i as int]));
                            SymbolTree::from_type_tree(&entry.1.0, data, parent_offset + offset as usize)
                        },
                        None => SymbolTree::Missing,
                    };
                    insert_entry(&mut tree_map, name, child);
                    assert(all.take(i + 1).drop_last() =~= all.take(i as int));
                    i = i + 1;
                }
                assert(all.take(fs.len() as int) =~= all);
                proof {
                    lemma_tree_struct_view(tree_map);
                }
                SymbolTree::Struct(tree_map)
            },
            SymbolTypeTree::Array(_symbol_type_tree, size) => {
                let raw = crate::le::copy_bytes(&data[0..*size]);
                assert(raw@ =~= data@.take(*size as int));
                let mut items: Vec<SymbolTree> = Vec::new();
                let item = SymbolTree::Void(raw);
                assert(item@ == TreeView::Void(data@.take(*size as int)));
                items.push(item);
                assert(items@[0]@ == TreeView::Void(data@.take(*size as int)));
                let t = SymbolTree::Array(items);
                assert(t@->Array_0 =~= seq![TreeView::Void(data@.take(*size as int))]);
                t
            },
            SymbolTypeTree::Void(size) => {
                let raw = crate::le::copy_bytes(&data[0..*size]);
                assert(raw@ =~= data@.take(*size as int));
                SymbolTree::Void(raw)
            },
            SymbolTypeTree::Int => if n >= 2 {
                SymbolTree::Int(crate::le::i16_from_bits(crate::le::read_u16_le(data)))
            } else {
                SymbolTree::Malformed
            },
            SymbolTypeTree::Dint => if n >= 4 {
                SymbolTree::Dint(crate::le::i32_from_bits(crate::le::read_u32_le(data)))
            } else {
                SymbolTree::Malformed
            },
            SymbolTypeTree::Real => if n >= 4 {
                SymbolTree::Real(crate::le::read_u32_le(data))
            } else {
                SymbolTree::Malformed
            },
            SymbolTypeTree::Lreal => if n >= 8 {
                SymbolTree::Lreal(crate::le::read_u64_le(data))
            } else {
                SymbolTree::Malformed
            },
            SymbolTypeTree::Sint => if n >= 1 {
                let u = data[0];
                SymbolTree::Sint(
                    if u < 128 {
                        u as i8
                    } else {
                        (u as i16 - 256) as i8
                    },
                )
            } else {
                SymbolTree::Malformed
            },
            SymbolTypeTree::Usint => if n >= 1 {
                SymbolTree::Usint(data[0])
            } else {
                SymbolTree::Malformed
            },
            SymbolTypeTree::Uint => if n >= 2 {
                SymbolTree::Uint(crate::le::read_u16_le(data))
            } else {
                SymbolTree::Malformed
            },
            SymbolTypeTree::Udint => if n >= 4 {
                SymbolTree::Udint(crate::le::read_u32_le(data))
            } else {
                SymbolTree::Malformed
            },
            SymbolTypeTree::Lint => if n >= 8 {
                let u = crate::le::read_u64_le(data);
                SymbolTree::Lint(
                    if u < 0x8000_0000_0000_0000 {
                        u as i64
                    } else {
                        (u - 0x8000_0000_0000_0000) as i64 + i64::MIN
                    },
                )
            } else {
                SymbolTree::Malformed
            },
            SymbolTypeTree::Ulint => if n >= 8 {
                SymbolTree::Ulint(crate::le::read_u64_le(data))
            } else {
                SymbolTree::Malformed
            },
            SymbolTypeTree::String(size) => {
                let text = &data[0..*size];
                assert(text@ =~= data@.take(*size as int));
                SymbolTree::String(crate::strs::string_from_utf8_lossy(text))
            },
            SymbolTypeTree::Wstring(size) => {
                let size = *size;
                if size % 2 != 0 {
                    return SymbolTree::Malformed;
                }
                let mut words: Vec<u16> = Vec::new();
                let mut i: usize = 0;
                while i < size
                    invariant
                        size % 2 == 0,
                        size <= data@.len(),
                        i % 2 == 0,
                        i <= size,
                        words@ =~= words_of(data@, i as int / 2),
                    decreases size - i,
                {
                    let word = crate::le::read_u16_le(&data[i..i + 2]);
                    assert(data@.subrange(i as int, i + 2) =~= data@.skip(2 * (i as int / 2)).take(2));
                    words.push(word);
                    i = i + 2;
                }
                SymbolTree::String(crate::strs::string_from_utf16_lossy(words.as_slice()))
            },
            SymbolTypeTree::Real80 => {
                if n < 10 {
                    return SymbolTree::Malformed;
                }
                SymbolTree::Lreal(extended_to_f64_bits(first_ten(data)))
            },
            SymbolTypeTree::Bool => if n == 1 {
                SymbolTree::Bool(data[0] != 1)
            } else {
                SymbolTree::Malformed
            },
            SymbolTypeTree::Compound(_) => SymbolTree::Malformed,
            SymbolTypeTree::Unknown(_) => SymbolTree::Unknown,
            SymbolTypeTree::Missing => SymbolTree::Missing,
        }
    }
}

} // verus!
