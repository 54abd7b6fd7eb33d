//! Flattened symbol maps: from a type tree to one descriptor per primitive
//! leaf (keyed by its dotted path), and from raw bytes to one value per leaf.
use crate::data_types::symbol_tree::{extended_f64_bits, extended_to_f64_bits, first_ten};
use crate::le::{signed, u16_le, u32_le, u64_le};
use crate::ordmap::{
    keys_unique, lemma_insert_all_fresh, lemma_insert_all_unique, seq_insert, seq_insert_all,
};
use crate::strs::{child_path, make_child_path, str_eq};
use crate::symbol::type_tree::{lemma_struct_view, SymbolTypeTree, TypeTreeView};
use crate::timestamp::{valid_parts, Timestamp, TimestampParts};
use indexmap::IndexMap;
use vstd::prelude::*;

verus! {

pub type SymbolPath = String;

pub type SymbolOffset = u32;

/// An insertion-ordered map from dotted symbol paths to decoded values.
pub type SymbolMap = IndexMap<SymbolPath, PrimitiveValue>;

/// An insertion-ordered map from dotted symbol paths to leaf descriptors.
pub type SymbolTypeMap = IndexMap<SymbolPath, PrimitiveSymbolDescriptor>;

#[verifier::external_type_specification]
#[verifier::external_body]
#[verifier::reject_recursive_types(K)]
#[verifier::reject_recursive_types(V)]
#[verifier::reject_recursive_types(S)]
pub struct ExIndexMap<K, V, S>(IndexMap<K, V, S>);

/// The primitive kinds of value a flattened symbol can hold.
#[derive(Debug, Clone, Copy, PartialEq, Eq)]
pub enum PrimitiveSymbolType {
    Int,
    Dint,
    Real,
    Lreal,
    Sint,
    Usint,
    Uint,
    Udint,
    Lint,
    Ulint,
    String(usize),
    Wstring(usize),
    Real80,
    Bool,
    /// A TIMESTRUCT, with the byte offsets of its eight words.
    TimeStruct([usize; 8]),
    Void(usize),
}

/// The mathematical value of a `PrimitiveSymbolType`.
pub enum PrimitiveTypeView {
    Int,
    Dint,
    Real,
    Lreal,
    Sint,
    Usint,
    Uint,
    Udint,
    Lint,
    Ulint,
    String(usize),
    Wstring(usize),
    Real80,
    Bool,
    TimeStruct(Seq<usize>),
    Void(usize),
}

impl View for PrimitiveSymbolType {
    type V = PrimitiveTypeView;

    open spec fn view(&self) -> PrimitiveTypeView {
        match *self {
            PrimitiveSymbolType::Int => PrimitiveTypeView::Int,
            PrimitiveSymbolType::Dint => PrimitiveTypeView::Dint,
            PrimitiveSymbolType::Real => PrimitiveTypeView::Real,
            PrimitiveSymbolType::Lreal => PrimitiveTypeView::Lreal,
            PrimitiveSymbolType::Sint => PrimitiveTypeView::Sint,
            PrimitiveSymbolType::Usint => PrimitiveTypeView::Usint,
            PrimitiveSymbolType::Uint => PrimitiveTypeView::Uint,
            PrimitiveSymbolType::Udint => PrimitiveTypeView::Udint,
            PrimitiveSymbolType::Lint => PrimitiveTypeView::Lint,
            PrimitiveSymbolType::Ulint => PrimitiveTypeView::Ulint,
            PrimitiveSymbolType::String(n) => PrimitiveTypeView::String(n),
            PrimitiveSymbolType::Wstring(n) => PrimitiveTypeView::Wstring(n),
            PrimitiveSymbolType::Real80 => PrimitiveTypeView::Real80,
            PrimitiveSymbolType::Bool => PrimitiveTypeView::Bool,
            PrimitiveSymbolType::TimeStruct(o) => PrimitiveTypeView::TimeStruct(o@),
            PrimitiveSymbolType::Void(n) => PrimitiveTypeView::Void(n),
        }
    }
}

/// Where and how to read one primitive value out of a symbol's bytes.
#[derive(Debug, Clone, Copy, PartialEq, Eq)]
pub struct PrimitiveSymbolDescriptor {
    symbol_type: PrimitiveSymbolType,
    root_symbol_offset: SymbolOffset,
}

/// A descriptor's kind and its offset from the start of the root symbol.
pub type DescriptorView = (PrimitiveTypeView, u32);

impl View for PrimitiveSymbolDescriptor {
    type V = DescriptorView;

    closed spec fn view(&self) -> DescriptorView {
        (self.symbol_type@, self.root_symbol_offset)
    }
}

impl PrimitiveSymbolDescriptor {
    pub fn from_type(symbol_type: PrimitiveSymbolType, offset: SymbolOffset) -> (d: Self)
        ensures
            d@ == (symbol_type@, offset),
    {
        PrimitiveSymbolDescriptor { symbol_type, root_symbol_offset: offset }
    }
}

/// The bits of a floating-point value read from a PLC: single and double
/// precision by their IEEE 754 bits; an 80-bit extended value is converted
/// to the nearest double and held as `F64`.
#[derive(Debug, Clone, Copy, PartialEq, Eq)]
pub enum FloatBits {
    F32(u32),
    F64(u64),
}

/// A decoded primitive value.
#[derive(Debug, Clone, PartialEq)]
pub enum PrimitiveValue {
    Int(i64),
    Uint(u64),
    Float(FloatBits),
    String(String),
    Timestamp(Timestamp),
    Bool(bool),
    Malformed,
    Void(Vec<u8>),
}

/// The mathematical value of a `PrimitiveValue`.
pub enum PrimitiveValueView {
    Int(i64),
    Uint(u64),
    Float(FloatBits),
    String(Seq<char>),
    Timestamp(TimestampParts),
    Bool(bool),
    Malformed,
    Void(Seq<u8>),
}

impl View for PrimitiveValue {
    type V = PrimitiveValueView;

    open spec fn view(&self) -> PrimitiveValueView {
        match self {
            PrimitiveValue::Int(v) => PrimitiveValueView::Int(*v),
            PrimitiveValue::Uint(v) => PrimitiveValueView::Uint(*v),
            PrimitiveValue::Float(v) => PrimitiveValueView::Float(*v),
            PrimitiveValue::String(s) => PrimitiveValueView::String(s@),
            PrimitiveValue::Timestamp(t) => PrimitiveValueView::Timestamp(t.parts()),
            PrimitiveValue::Bool(b) => PrimitiveValueView::Bool(*b),
            PrimitiveValue::Malformed => PrimitiveValueView::Malformed,
            PrimitiveValue::Void(v) => PrimitiveValueView::Void(v@),
        }
    }
}

// ----- The two maps, and the `IndexMap` methods the library calls. -----
/// What a `SymbolTypeMap` holds: its entries in order, keys viewed.
pub uninterp spec fn type_map_entries(m: SymbolTypeMap) -> Seq<(Seq<char>, DescriptorView)>;

/// What a `SymbolMap` holds: its entries in order, keys and values viewed.
pub uninterp spec fn value_map_entries(m: SymbolMap) -> Seq<(Seq<char>, PrimitiveValueView)>;

/// `IndexMap::new`: an empty map.
#[verifier::external_body]
fn type_map_new() -> (m: SymbolTypeMap)
    ensures
        type_map_entries(m) == Seq::<(Seq<char>, DescriptorView)>::empty(),
{
    IndexMap::new()
}

/// `IndexMap::insert`: a present key keeps its place and takes the new
/// value; a new key goes last.
#[verifier::external_body]
fn type_map_insert(m: &mut SymbolTypeMap, key: String, value: PrimitiveSymbolDescriptor)
    ensures
        type_map_entries(*final(m)) == seq_insert(type_map_entries(*old(m)), key@, value@),
{
    m.insert(key, value);
}

/// `IndexMap::append`: moves every entry of `other`, in order, into `m` as
/// `insert` would, leaving `other` empty.
#[verifier::external_body]
fn type_map_append(m: &mut SymbolTypeMap, other: &mut SymbolTypeMap)
    ensures
        type_map_entries(*final(m)) == seq_insert_all(
            type_map_entries(*old(m)),
            type_map_entries(*old(other)),
        ),
        type_map_entries(*final(other)) == Seq::<(Seq<char>, DescriptorView)>::empty(),
{
    m.append(other);
}

/// `IndexMap::len`: the number of entries.
#[verifier::external_body]
fn type_map_len(m: &SymbolTypeMap) -> (n: usize)
    ensures
        n == type_map_entries(*m).len(),
{
    m.len()
}

/// `IndexMap::get_index`: the entry at a position, if there is one.
#[verifier::external_body]
fn type_map_get_index(m: &SymbolTypeMap, i: usize) -> (r: Option<
    (&String, &PrimitiveSymbolDescriptor),
>)
    ensures
        r is Some <==> i < type_map_entries(*m).len(),
        r matches Some((k, v)) ==> k@ == type_map_entries(*m)[i as int].0 && v@
            == type_map_entries(*m)[i as int].1,
{
    m.get_index(i)
}

/// `IndexMap::new`: an empty map.
#[verifier::external_body]
fn value_map_new() -> (m: SymbolMap)
    ensures
        value_map_entries(m) == Seq::<(Seq<char>, PrimitiveValueView)>::empty(),
{
    IndexMap::new()
}

/// `IndexMap::insert`: a present key keeps its place and takes the new
/// value; a new key goes last.
#[verifier::external_body]
fn value_map_insert(m: &mut SymbolMap, key: String, value: PrimitiveValue)
    ensures
        value_map_entries(*final(m)) == seq_insert(value_map_entries(*old(m)), key@, value@),
{
    m.insert(key, value);
}

// ----- From a type tree to a type map. -----
/// The words of a TIMESTRUCT, in order.
pub open spec fn timestruct_keys() -> Seq<Seq<char>> {
    seq![
        "wYear"@,
        "wMonth"@,
        "wDayOfWeek"@,
        "wDay"@,
        "wHour"@,
        "wMinute"@,
        "wSecond"@,
        "wMilliseconds"@,
    ]
}

/// The fields are exactly the words of a TIMESTRUCT, in order.
pub open spec fn is_timestruct(fs: Seq<(Seq<char>, (TypeTreeView, Option<u32>))>) -> bool {
    fs.len() == 8 && forall|i: int| 0 <= i < 8 ==> #[trigger] fs[i].0 == timestruct_keys()[i]
}

/// The offsets of a TIMESTRUCT's words, when every word is an inline `Uint`.
pub open spec fn timestruct_offsets(fs: Seq<(Seq<char>, (TypeTreeView, Option<u32>))>) -> Option<
    Seq<usize>,
> {
    if forall|i: int| 0 <= i < fs.len() ==> (#[trigger] fs[i].1.1 is Some && fs[i].1.0 is Uint) {
        Some(Seq::new(fs.len(), |i: int| fs[i].1.1->0 as usize))
    } else {
        None
    }
}

/// The leaf descriptor for a primitive type, if the type is one.
pub open spec fn leaf_type(t: TypeTreeView) -> Option<PrimitiveTypeView> {
    match t {
        TypeTreeView::Int => Some(PrimitiveTypeView::Int),
        TypeTreeView::Dint => Some(PrimitiveTypeView::Dint),
        TypeTreeView::Real => Some(PrimitiveTypeView::Real),
        TypeTreeView::Lreal => Some(PrimitiveTypeView::Lreal),
        TypeTreeView::Sint => Some(PrimitiveTypeView::Sint),
        TypeTreeView::Usint => Some(PrimitiveTypeView::Usint),
        TypeTreeView::Uint => Some(PrimitiveTypeView::Uint),
        TypeTreeView::Udint => Some(PrimitiveTypeView::Udint),
        TypeTreeView::Lint => Some(PrimitiveTypeView::Lint),
        TypeTreeView::Ulint => Some(PrimitiveTypeView::Ulint),
        TypeTreeView::String(n) => Some(PrimitiveTypeView::String(n)),
        TypeTreeView::Wstring(n) => Some(PrimitiveTypeView::Wstring(n)),
        TypeTreeView::Real80 => Some(PrimitiveTypeView::Real80),
        TypeTreeView::Bool => Some(PrimitiveTypeView::Bool),
        TypeTreeView::Array(_, n) => Some(PrimitiveTypeView::Void(n)),
        TypeTreeView::Void(n) => Some(PrimitiveTypeView::Void(n)),
        TypeTreeView::Unknown(n) => Some(PrimitiveTypeView::Void(n)),
        _ => None,
    }
}

/// The flattened map of a type tree placed at `offset`, keyed below `path`:
/// a TIMESTRUCT is one timestamp leaf (no entry at all if a word is not an
/// inline `Uint`); another struct is the maps of its inline fields inserted
/// in order; arrays and unknown types are raw bytes; `Missing` has no entry.
pub open spec fn map_of_tree(t: TypeTreeView, offset: int, path: Seq<char>) -> Seq<
    (Seq<char>, DescriptorView),
>
    decreases t, 0int,
{
    match t {
        TypeTreeView::Struct(fs, _) => {
            if is_timestruct(fs) {
                match timestruct_offsets(fs) {
                    Some(o) => seq![(path, (PrimitiveTypeView::TimeStruct(o), offset as u32))],
                    None => Seq::empty(),
                }
            } else {
                map_of_fields(fs, fs.len() as int, offset, path)
            }
        },
        _ => match leaf_type(t) {
            Some(k) => seq![(path, (k, offset as u32))],
            None => Seq::empty(),
        },
    }
}

/// The maps of the first `n` fields, inserted in order.
pub open spec fn map_of_fields(
    fs: Seq<(Seq<char>, (TypeTreeView, Option<u32>))>,
    n: int,
    offset: int,
    path: Seq<char>,
) -> Seq<(Seq<char>, DescriptorView)>
    decreases fs, n,
{
    if n <= 0 || n > fs.len() {
        Seq::empty()
    } else {
        let prev = map_of_fields(fs, n - 1, offset, path);
        match fs[n - 1].1.1 {
            Some(o) => seq_insert_all(
                prev,
                map_of_tree(fs[n - 1].1.0, offset + o, child_path(path, fs[n - 1].0)),
            ),
            None => prev,
        }
    }
}

/// The inputs `from_tree` handles: offsets stay within `u32`, and no
/// unresolved `Compound` type is reached.
pub open spec fn tree_map_ok(t: TypeTreeView, offset: int) -> bool
    decreases t, 0int,
{
    match t {
        TypeTreeView::Struct(fs, _) => is_timestruct(fs) || fields_map_ok(
            fs,
            fs.len() as int,
            offset,
        ),
        TypeTreeView::Compound(_) => false,
        _ => true,
    }
}

pub open spec fn fields_map_ok(
    fs: Seq<(Seq<char>, (TypeTreeView, Option<u32>))>,
    n: int,
    offset: int,
) -> bool
    decreases fs, n,
{
    if n <= 0 || n > fs.len() {
        true
    } else {
        fields_map_ok(fs, n - 1, offset) && match fs[n - 1].1.1 {
            Some(o) => offset + o <= u32::MAX && tree_map_ok(fs[n - 1].1.0, offset + o),
            None => true,
        }
    }
}

/// Building a `SymbolTypeMap` from a `SymbolTypeTree`.
pub trait SymbolTypeMapExt: Sized {
    spec fn entries(&self) -> Seq<(Seq<char>, DescriptorView)>;

    /// The flattened map of `tree` placed at `offset`, keyed below `path`.
    fn from_tree(tree: SymbolTypeTree, offset: SymbolOffset, path: String) -> (m: Self)
        requires
            tree_map_ok(tree@, offset as int),
        ensures
            m.entries() == map_of_tree(tree@, offset as int, path@),
    ;
}

impl SymbolTypeMapExt for SymbolTypeMap {
    open spec fn entries(&self) -> Seq<(Seq<char>, DescriptorView)> {
        type_map_entries(*self)
    }

    fn from_tree(tree: SymbolTypeTree, offset: SymbolOffset, path: String) -> (m: Self) {
        map_from_tree(&tree, offset, path)
    }
}

/// The position of `name` among the TIMESTRUCT words.
fn timestruct_position(name: &str) -> (r: Option<usize>)
    ensures
        match r {
            Some(i) => i < 8 && timestruct_keys()[i as int] == name@ && forall|j: int|
                0 <= j < i ==> #[trigger] timestruct_keys()[j] != name@,
            None => forall|j: int| 0 <= j < 8 ==> #[trigger] timestruct_keys()[j] != name@,
        },
{
    if str_eq("wYear", name) {
        Some(0)
    } else if str_eq("wMonth", name) {
        Some(1)
    } else if str_eq("wDayOfWeek", name) {
        Some(2)
    } else if str_eq("wDay", name) {
        Some(3)
    } else if str_eq("wHour", name) {
        Some(4)
    } else if str_eq("wMinute", name) {
        Some(5)
    } else if str_eq("wSecond", name) {
        Some(6)
    } else if str_eq("wMilliseconds", name) {
        Some(7)
    } else {
        None
    }
}

/// The TIMESTRUCT words are eight distinct names.
pub proof fn lemma_timestruct_keys_distinct()
    ensures
        forall|i: int, j: int|
            0 <= i < 8 && 0 <= j < 8 && i != j ==> timestruct_keys()[i] != timestruct_keys()[j],
{
    reveal_strlit("wYear");
    reveal_strlit("wMonth");
    reveal_strlit("wDayOfWeek");
    reveal_strlit("wDay");
    reveal_strlit("wHour");
    reveal_strlit("wMinute");
    reveal_strlit("wSecond");
    reveal_strlit("wMilliseconds");
    assert forall|i: int, j: int|
        0 <= i < 8 && 0 <= j < 8 && i != j implies timestruct_keys()[i]
        != timestruct_keys()[j] by {
        let a = timestruct_keys()[i];
        let b = timestruct_keys()[j];
        if a.len() == b.len() {
            assert(a[1] != b[1] || a[2] != b[2]);
        }
    }
}

/// Whether the fields' names are exactly the TIMESTRUCT words, in order.
fn fields_are_timestruct(fs: &Vec<(String, (SymbolTypeTree, Option<u32>))>) -> (r: bool)
    ensures
        r == is_timestruct(crate::ordmap::entries_view(fs@)),
{
    let ghost ev = crate::ordmap::entries_view(fs@);
    if fs.len() != 8 {
        return false;
    }
    let mut i: usize = 0;
    while i < 8
        invariant
            fs@.len() == 8,
            ev == crate::ordmap::entries_view(fs@),
            i <= 8,
            forall|j: int| 0 <= j < i ==> #[trigger] ev[j].0 == timestruct_keys()[j],
        decreases 8 - i,
    {
        match timestruct_position(fs[i].0.as_str()) {
            Some(p) => {
                if p != i {
                    proof {
                        lemma_timestruct_keys_distinct();
                    }
                    assert(ev[i as int].0 == fs@[i as int].0@);
                    return false;
                }
            },
            None => {
                assert(ev[i as int].0 == fs@[i as int].0@);
                return false;
            },
        }
        assert(ev[i as int].0 == fs@[i as int].0@);
        i = i + 1;
    }
    true
}

fn map_from_tree(tree: &SymbolTypeTree, offset: SymbolOffset, path: String) -> (m: SymbolTypeMap)
    requires
        tree_map_ok(tree@, offset as int),
    ensures
        type_map_entries(m) == map_of_tree(tree@, offset as int, path@),
    decreases tree,
{
    let mut map = type_map_new();
    match tree {
        SymbolTypeTree::Struct(index_map, size) => {
            proof {
                lemma_struct_view(*index_map, *size);
            }
            let ghost fs = crate::ordmap::entries_view(index_map@);
            if fields_are_timestruct(index_map) {
                let mut offsets: [usize; 8] = [0;8];
                let mut i: usize = 0;
                while i < 8
                    invariant
                        index_map@.len() == 8,
                        tree@ == TypeTreeView::Struct(fs, *size),
                        fs == crate::ordmap::entries_view(index_map@),
                        is_timestruct(fs),
                        i <= 8,
                        forall|j: int| 0 <= j < i ==> #[trigger] fs[j].1.1 is Some && fs[j].1.0 is Uint
                            && offsets@[j] == fs[j].1.1->0 as usize,
                    decreases 8 - i,
                {
                    let entry = &index_map[i];
                    assert(fs[i as int] == (entry.0@, (entry.1.0@, entry.1.1)));
                    let child_offset = match entry.1.1 {
                        Some(o) => o,
                        None => {
                            assert(!(fs[i as int].1.1 is Some && fs[i as int].1.0 is Uint));
                            assert(timestruct_offsets(fs) is None);
                            return type_map_new();
                        },
                    };
                    match &entry.1.0 {
                        SymbolTypeTree::Uint => {},
                        _ => {
                            assert(fs[i as int].1.0 !is Uint);
                            assert(!(fs[i as int].1.1 is Some && fs[i as int].1.0 is Uint));
                            assert(timestruct_offsets(fs) is None);
                            return type_map_new();
                        },
                    }
                    assert(fs[i as int].0 == timestruct_keys()[i as int]);
                    let index = match timestruct_position(entry.0.as_str()) {
                        Some(index) => index,
                        None => {
                            assert(timestruct_keys()[i as int] == entry.0@);
                            return type_map_new();
                        },
                    };
                    proof {
                        lemma_timestruct_keys_distinct();
                    }
                    assert(index == i);
                    offsets[index] = child_offset as usize;
                    i = i + 1;
                }
                let ghost o = Seq::new(fs.len(), |j: int| fs[j].1.1->0 as usize);
                assert(offsets@ =~= o);
                type_map_insert(
                    &mut map,
                    path,
                    PrimitiveSymbolDescriptor::from_type(
                        PrimitiveSymbolType::TimeStruct(offsets),
                        offset,
                    ),
                );
                assert(type_map_entries(map) =~= seq![
                    (path@, (PrimitiveTypeView::TimeStruct(o), offset)),
                ]);
            } else {
                let mut i: usize = 0;
                while i < index_map.len()
                    invariant
                        fs == crate::ordmap::entries_view(index_map@),
                        fs.len() == index_map@.len(),
                        !is_timestruct(fs),
                        i <= fs.len(),
                        tree_map_ok(tree@, offset as int),
                        tree@ == TypeTreeView::Struct(fs, *size),
                        *tree == SymbolTypeTree::Struct(*index_map, *size),
                        type_map_entries(map) == map_of_fields(fs, i as int, offset as int, path@),
                    decreases fs.len() - i,
                {
                    let entry = &index_map[i];
                    assert(fs[i as int] == (entry.0@, (entry.1.0@, entry.1.1)));
                    proof {
                        lemma_fields_map_ok_prefix(fs, fs.len() as int, i + 1, offset as int);
                    }
                    match entry.1.1 {
                        Some(child_offset) => {
                            let child_path = make_child_path(path.as_str(), entry.0.as_str());
                            assert(*tree == SymbolTypeTree::Struct(*index_map, *size));
                            assert(decreases_to!(*tree => *index_map));
                            assert(decreases_to!(*index_map => index_map@));
                            assert(decreases_to!(index_map@ => index_map@[i as int]));
                            assert(decreases_to!(index_map@[i as int] => index_map@[i as int].1));
                            assert(decreases_to!(index_map@[i as int].1 => index_map@[i as int].1.0));
                            let mut child = map_from_tree(&entry.1.0, offset + child_offset, child_path);
                            type_map_append(&mut map, &mut child);
                        },
                        None => {},
                    }
                    i = i + 1;
                }
            }
        },
        SymbolTypeTree::Int => {
            type_map_insert(&mut map, path, PrimitiveSymbolDescriptor::from_type(PrimitiveSymbolType::Int, offset));
        },
        SymbolTypeTree::Dint => {
            type_map_insert(&mut map, path, PrimitiveSymbolDescriptor::from_type(PrimitiveSymbolType::Dint, offset));
        },
        SymbolTypeTree::Real => {
            type_map_insert(&mut map, path, PrimitiveSymbolDescriptor::from_type(PrimitiveSymbolType::Real, offset));
        },
        SymbolTypeTree::Lreal => {
            type_map_insert(&mut map, path, PrimitiveSymbolDescriptor::from_type(PrimitiveSymbolType::Lreal, offset));
        },
        SymbolTypeTree::Sint => {
            type_map_insert(&mut map, path, PrimitiveSymbolDescriptor::from_type(PrimitiveSymbolType::Sint, offset));
        },
        SymbolTypeTree::Usint => {
            type_map_insert(&mut map, path, PrimitiveSymbolDescriptor::from_type(PrimitiveSymbolType::Usint, offset));
        },
        SymbolTypeTree::Uint => {
            type_map_insert(&mut map, path, PrimitiveSymbolDescriptor::from_type(PrimitiveSymbolType::Uint, offset));
        },
        SymbolTypeTree::Udint => {
            type_map_insert(&mut map, path, PrimitiveSymbolDescriptor::from_type(PrimitiveSymbolType::Udint, offset));
        },
        SymbolTypeTree::Lint => {
            type_map_insert(&mut map, path, PrimitiveSymbolDescriptor::from_type(PrimitiveSymbolType::Lint, offset));
        },
        SymbolTypeTree::Ulint => {
            type_map_insert(&mut map, path, PrimitiveSymbolDescriptor::from_type(PrimitiveSymbolType::Ulint, offset));
        },
        SymbolTypeTree::String(size) => {
            type_map_insert(&mut map, path, PrimitiveSymbolDescriptor::from_type(PrimitiveSymbolType::String(*size), offset));
        },
        SymbolTypeTree::Wstring(size) => {
            type_map_insert(&mut map, path, PrimitiveSymbolDescriptor::from_type(PrimitiveSymbolType::Wstring(*size), offset));
        },
        SymbolTypeTree::Real80 => {
            type_map_insert(&mut map, path, PrimitiveSymbolDescriptor::from_type(PrimitiveSymbolType::Real80, offset));
        },
        SymbolTypeTree::Bool => {
            type_map_insert(&mut map, path, PrimitiveSymbolDescriptor::from_type(PrimitiveSymbolType::Bool, offset));
        },
        // Arrays are not fully supported, so their raw bytes are kept for the consumer.
        SymbolTypeTree::Array(_symbol_type_tree, size) => {
            type_map_insert(&mut map, path, PrimitiveSymbolDescriptor::from_type(PrimitiveSymbolType::Void(*size), offset));
        },
        SymbolTypeTree::Void(size) => {
            type_map_insert(&mut map, path, PrimitiveSymbolDescriptor::from_type(PrimitiveSymbolType::Void(*size), offset));
        },
        // Raw bytes, so that the consumer can still attempt to read the data.
        SymbolTypeTree::Unknown(size) => {
            type_map_insert(&mut map, path, PrimitiveSymbolDescriptor::from_type(PrimitiveSymbolType::Void(*size), offset));
        },
        SymbolTypeTree::Compound(_) => {},
        // Missing means not in the structure, so it is not added to the map.
        SymbolTypeTree::Missing => {},
    }
    map
}

/// Whether `from_tree` handles `tree` placed at `offset` (see
/// `tree_map_ok`).
pub fn tree_map_fits(tree: &SymbolTypeTree, offset: SymbolOffset) -> (r: bool)
    ensures
        r == tree_map_ok(tree@, offset as int),
    decreases tree,
{
    match tree {
        SymbolTypeTree::Struct(fields, size) => {
            proof {
                lemma_struct_view(*fields, *size);
            }
            let ghost fs = crate::ordmap::entries_view(fields@);
            if fields_are_timestruct(fields) {
                return true;
            }
            let mut i: usize = 0;
            while i < fields.len()
                invariant
                    fs == crate::ordmap::entries_view(fields@),
                    fs.len() == fields@.len(),
                    *tree == SymbolTypeTree::Struct(*fields, *size),
                    tree@ == TypeTreeView::Struct(fs, *size),
                    !is_timestruct(fs),
                    i <= fs.len(),
                    fields_map_ok(fs, i as int, offset as int),
                decreases fs.len() - i,
            {
                let entry = &fields[i];
                assert(fs[i as int] == (entry.0@, (entry.1.0@, entry.1.1)));
                if let Some(o) = entry.1.1 {
                    if o > u32::MAX - offset {
                        proof {
                            lemma_fields_map_ok_prefix_fails(fs, fs.len() as int, i + 1, offset as int);
                        }
                        return false;
                    }
                    assert(decreases_to!(*tree => *fields));
                    assert(decreases_to!(*fields => fields@));
                    assert(decreases_to!(fields@ => fields@[i as int]));
                    if !tree_map_fits(&entry.1.0, offset + o) {
                        proof {
                            lemma_fields_map_ok_prefix_fails(fs, fs.len() as int, i + 1, offset as int);
                        }
                        return false;
                    }
                }
                i = i + 1;
            }
            true
        },
        SymbolTypeTree::Compound(_) => false,
        _ => true,
    }
}

/// Where the checks fail on a prefix of the fields, they fail on all.
proof fn lemma_fields_map_ok_prefix_fails(
    fs: Seq<(Seq<char>, (TypeTreeView, Option<u32>))>,
    n: int,
    k: int,
    offset: int,
)
    requires
        !fields_map_ok(fs, k, offset),
        0 < k <= n <= fs.len(),
    ensures
        !fields_map_ok(fs, n, offset),
    decreases n - k,
{
    if k < n {
        lemma_fields_map_ok_prefix_fails(fs, n - 1, k, offset);
    }
}

/// The checks on a prefix of the fields hold when they hold on all of them.
pub proof fn lemma_fields_map_ok_prefix(
    fs: Seq<(Seq<char>, (TypeTreeView, Option<u32>))>,
    n: int,
    k: int,
    offset: int,
)
    requires
        fields_map_ok(fs, n, offset),
        0 < k <= n <= fs.len(),
    ensures
        fields_map_ok(fs, k, offset),
        match fs[k - 1].1.1 {
            Some(o) => offset + o <= u32::MAX && tree_map_ok(fs[k - 1].1.0, offset + o),
            None => true,
        },
    decreases n - k,
{
    if k < n {
        lemma_fields_map_ok_prefix(fs, n - 1, k, offset);
    }
}

} // verus!

verus! {

// ----- From bytes to values. -----
/// The little-endian 16-bit word at offset `o` of `acc`, if it fits.
pub open spec fn word_at(acc: Seq<u8>, o: int) -> Option<u16> {
    if 0 <= o && o + 2 <= acc.len() {
        Some(u16_le(acc.skip(o)) as u16)
    } else {
        None
    }
}

/// Reading the TIMESTRUCT words at offsets `o` (year, month, then day to
/// millisecond; the weekday is not read) out of `len` bytes stays in bounds:
/// each word starts within the data as long as the words before it fit.
pub open spec fn timestruct_in_bounds(o: Seq<usize>, len: int) -> bool {
    &&& o.len() == 8
    &&& o[0] <= len
    &&& o[0] + 2 <= len ==> o[1] <= len
    &&& o[0] + 2 <= len && o[1] + 2 <= len ==> o[3] <= len
    &&& o[0] + 2 <= len && o[1] + 2 <= len && o[3] + 2 <= len ==> o[4] <= len
    &&& o[0] + 2 <= len && o[1] + 2 <= len && o[3] + 2 <= len && o[4] + 2 <= len ==> o[5] <= len
    &&& o[0] + 2 <= len && o[1] + 2 <= len && o[3] + 2 <= len && o[4] + 2 <= len && o[5] + 2
        <= len ==> o[6] <= len
    &&& o[0] + 2 <= len && o[1] + 2 <= len && o[3] + 2 <= len && o[4] + 2 <= len && o[5] + 2
        <= len && o[6] + 2 <= len ==> o[7] <= len
}

/// The timestamp a TIMESTRUCT holds: `Malformed` when a word does not fit or
/// the parts name no date-time.
pub open spec fn timestruct_value(o: Seq<usize>, acc: Seq<u8>) -> PrimitiveValueView {
    let words = seq![o[0], o[1], o[3], o[4], o[5], o[6], o[7]];
    if forall|k: int| 0 <= k < 7 ==> #[trigger] word_at(acc, words[k] as int) is Some {
        let parts = TimestampParts {
            year: word_at(acc, o[0] as int)->0,
            month: word_at(acc, o[1] as int)->0,
            day: word_at(acc, o[3] as int)->0,
            hour: word_at(acc, o[4] as int)->0,
            minute: word_at(acc, o[5] as int)->0,
            second: word_at(acc, o[6] as int)->0,
            millisecond: word_at(acc, o[7] as int)->0,
        };
        if valid_parts(parts) {
            PrimitiveValueView::Timestamp(parts)
        } else {
            PrimitiveValueView::Malformed
        }
    } else {
        PrimitiveValueView::Malformed
    }
}

/// The `n` little-endian 16-bit words at the start of `acc`.
pub open spec fn words_of(acc: Seq<u8>, n: int) -> Seq<u16> {
    Seq::new(n as nat, |j: int| u16_le(acc.skip(2 * j)) as u16)
}

/// The value a descriptor reads out of a symbol's bytes. Numbers are read
/// little-endian from the descriptor's offset; one that does not fit in the
/// remaining bytes reads as `Malformed`.
pub open spec fn value_of(d: DescriptorView, bytes: Seq<u8>) -> PrimitiveValueView {
    let acc = bytes.skip(d.1 as int);
    match d.0 {
        PrimitiveTypeView::TimeStruct(o) => timestruct_value(o, acc),
        PrimitiveTypeView::Real => if acc.len() >= 4 {
            PrimitiveValueView::Float(FloatBits::F32(u32_le(acc) as u32))
        } else {
            PrimitiveValueView::Malformed
        },
        PrimitiveTypeView::Lreal => if acc.len() >= 8 {
            PrimitiveValueView::Float(FloatBits::F64(u64_le(acc) as u64))
        } else {
            PrimitiveValueView::Malformed
        },
        PrimitiveTypeView::Sint => if acc.len() >= 1 {
            PrimitiveValueView::Int(signed(acc[0] as int, 128) as i64)
        } else {
            PrimitiveValueView::Malformed
        },
        PrimitiveTypeView::Int => if acc.len() >= 2 {
            PrimitiveValueView::Int(signed(u16_le(acc), 32768) as i64)
        } else {
            PrimitiveValueView::Malformed
        },
        PrimitiveTypeView::Dint => if acc.len() >= 4 {
            PrimitiveValueView::Int(signed(u32_le(acc), 0x8000_0000) as i64)
        } else {
            PrimitiveValueView::Malformed
        },
        PrimitiveTypeView::Lint => if acc.len() >= 8 {
            PrimitiveValueView::Int(signed(u64_le(acc), 0x8000_0000_0000_0000) as i64)
        } else {
            PrimitiveValueView::Malformed
        },
        PrimitiveTypeView::Usint => if acc.len() >= 1 {
            PrimitiveValueView::Uint(acc[0] as u64)
        } else {
            PrimitiveValueView::Malformed
        },
        PrimitiveTypeView::Uint => if acc.len() >= 2 {
            PrimitiveValueView::Uint(u16_le(acc) as u64)
        } else {
            PrimitiveValueView::Malformed
        },
        PrimitiveTypeView::Udint => if acc.len() >= 4 {
            PrimitiveValueView::Uint(u32_le(acc) as u64)
        } else {
            PrimitiveValueView::Malformed
        },
        PrimitiveTypeView::Ulint => if acc.len() >= 8 {
            PrimitiveValueView::Uint(u64_le(acc) as u64)
        } else {
            PrimitiveValueView::Malformed
        },
        PrimitiveTypeView::String(n) => PrimitiveValueView::String(
            crate::strs::utf8_lossy(acc.take(n as int)),
        ),
        PrimitiveTypeView::Bool => if acc.len() >= 1 {
            PrimitiveValueView::Bool(acc[0] != 0)
        } else {
            PrimitiveValueView::Malformed
        },
        PrimitiveTypeView::Wstring(n) => if n % 2 != 0 {
            PrimitiveValueView::Malformed
        } else {
            PrimitiveValueView::String(crate::strs::utf16_lossy(words_of(acc, n as int / 2)))
        },
        PrimitiveTypeView::Real80 => if bytes.len() < 10 {
            PrimitiveValueView::Malformed
        } else {
            PrimitiveValueView::Float(FloatBits::F64(extended_f64_bits(acc.take(10))))
        },
        PrimitiveTypeView::Void(n) => PrimitiveValueView::Void(acc.take(n as int)),
    }
}

/// The inputs on which reading a descriptor stays within the bytes: its
/// offset, and for text, raw bytes and TIMESTRUCTs every byte it slices.
/// (An 80-bit float is checked against the whole buffer, not the part after
/// the offset, so that part must then hold ten bytes.)
pub open spec fn read_in_bounds(d: DescriptorView, bytes: Seq<u8>) -> bool {
    let acc_len = bytes.len() - d.1;
    &&& d.1 <= bytes.len()
    &&& match d.0 {
        PrimitiveTypeView::TimeStruct(o) => timestruct_in_bounds(o, acc_len),
        PrimitiveTypeView::String(n) => n <= acc_len,
        PrimitiveTypeView::Wstring(n) => n % 2 != 0 || n <= acc_len,
        PrimitiveTypeView::Real80 => bytes.len() < 10 || acc_len >= 10,
        PrimitiveTypeView::Void(n) => n <= acc_len,
        _ => true,
    }
}

/// Reads the 16-bit word at offset `o` of `acc`, as `u16::read_from_prefix`
/// on `&acc[o..]` does.
fn word_at_exec(acc: &[u8], o: usize) -> (r: Option<u16>)
    requires
        o <= acc@.len(),
    ensures
        r == word_at(acc@, o as int),
{
    let rest = &acc[o..acc.len()];
    if rest.len() >= 2 {
        assert(rest@ =~= acc@.skip(o as int));
        Some(crate::le::read_u16_le(rest))
    } else {
        None
    }
}

impl PrimitiveSymbolDescriptor {
    fn datetime_from_bytes(offsets: [usize; 8], bytes: &[u8]) -> (r: PrimitiveValue)
        requires
            timestruct_in_bounds(offsets@, bytes@.len() as int),
        ensures
            r@ == timestruct_value(offsets@, bytes@),
    {
        let ghost o = offsets@;
        let ghost words = seq![o[0], o[1], o[3], o[4], o[5], o[6], o[7]];
        assert(words[0] == o[0] && words[1] == o[1] && words[2] == o[3] && words[3] == o[4]
            && words[4] == o[5] && words[5] == o[6] && words[6] == o[7]);
        let year = match word_at_exec(bytes, offsets[0]) {
            Some(w) => w,
            None => {
                assert(word_at(bytes@, words[0] as int) is None);
                return PrimitiveValue::Malformed;
            },
        };
        let month = match word_at_exec(bytes, offsets[1]) {
            Some(w) => w,
            None => {
                assert(word_at(bytes@, words[1] as int) is None);
                return PrimitiveValue::Malformed;
            },
        };
        let day = match word_at_exec(bytes, offsets[3]) {
            Some(w) => w,
            None => {
                assert(word_at(bytes@, words[2] as int) is None);
                return PrimitiveValue::Malformed;
            },
        };
        let hour = match word_at_exec(bytes, offsets[4]) {
            Some(w) => w,
            None => {
                assert(word_at(bytes@, words[3] as int) is None);
                return PrimitiveValue::Malformed;
            },
        };
        let minute = match word_at_exec(bytes, offsets[5]) {
            Some(w) => w,
            None => {
                assert(word_at(bytes@, words[4] as int) is None);
                return PrimitiveValue::Malformed;
            },
        };
        let second = match word_at_exec(bytes, offsets[6]) {
            Some(w) => w,
            None => {
                assert(word_at(bytes@, words[5] as int) is None);
                return PrimitiveValue::Malformed;
            },
        };
        let millisecond = match word_at_exec(bytes, offsets[7]) {
            Some(w) => w,
            None => {
                assert(word_at(bytes@, words[6] as int) is None);
                return PrimitiveValue::Malformed;
            },
        };
        assert forall|k: int| 0 <= k < 7 implies #[trigger] word_at(bytes@, words[k] as int) is Some by {
            assert(k == 0 || k == 1 || k == 2 || k == 3 || k == 4 || k == 5 || k == 6);
        }
        match Timestamp::from_parts(year, month, day, hour, minute, second, millisecond) {
            Some(t) => PrimitiveValue::Timestamp(t),
            None => PrimitiveValue::Malformed,
        }
    }

    /// The value this descriptor reads out of a symbol's bytes.
    pub fn read_from_bytes(&self, bytes: &[u8]) -> (v: PrimitiveValue)
        requires
            read_in_bounds(self@, bytes@),
        ensures
            v@ == value_of(self@, bytes@),
    {
        let accessible_data: &[u8] = &bytes[(self.root_symbol_offset as usize)..bytes.len()];
        assert(accessible_data@ =~= bytes@.skip(self.root_symbol_offset as int));
        let n = accessible_data.len();
        match self.symbol_type {
            PrimitiveSymbolType::TimeStruct(offsets) => {
                Self::datetime_from_bytes(offsets, accessible_data)
            },
            PrimitiveSymbolType::Real => if n >= 4 {
                PrimitiveValue::Float(FloatBits::F32(crate::le::read_u32_le(accessible_data)))
            } else {
                PrimitiveValue::Malformed
            },
            PrimitiveSymbolType::Lreal => if n >= 8 {
                PrimitiveValue::Float(FloatBits::F64(crate::le::read_u64_le(accessible_data)))
            } else {
                PrimitiveValue::Malformed
            },
            PrimitiveSymbolType::Sint => if n >= 1 {
                let u = accessible_data[0];
                PrimitiveValue::Int(
                    if u < 128 {
                        u as i64
                    } else {
                        u as i64 - 256
                    },
                )
            } else {
                PrimitiveValue::Malformed
            },
            PrimitiveSymbolType::Int => if n >= 2 {
                let u = crate::le::read_u16_le(accessible_data);
                PrimitiveValue::Int(
                    if u < 32768 {
                        u as i64
                    } else {
                        u as i64 - 65536
                    },
                )
            } else {
                PrimitiveValue::Malformed
            },
            PrimitiveSymbolType::Dint => if n >= 4 {
                let u = crate::le::read_u32_le(accessible_data);
                PrimitiveValue::Int(
                    if u < 0x8000_0000 {
                        u as i64
                    } else {
                        u as i64 - 0x1_0000_0000
                    },
                )
            } else {
                PrimitiveValue::Malformed
            },
            PrimitiveSymbolType::Lint => if n >= 8 {
                let u = crate::le::read_u64_le(accessible_data);
                PrimitiveValue::Int(
                    if u < 0x8000_0000_0000_0000 {
                        u as i64
                    } else {
                        (u - 0x8000_0000_0000_0000) as i64 + i64::MIN
                    },
                )
            } else {
                PrimitiveValue::Malformed
            },
            PrimitiveSymbolType::Usint => if n >= 1 {
                PrimitiveValue::Uint(accessible_data[0] as u64)
            } else {
                PrimitiveValue::Malformed
            },
            PrimitiveSymbolType::Uint => if n >= 2 {
                PrimitiveValue::Uint(crate::le::read_u16_le(accessible_data) as u64)
            } else {
                PrimitiveValue::Malformed
            },
            PrimitiveSymbolType::Udint => if n >= 4 {
                PrimitiveValue::Uint(crate::le::read_u32_le(accessible_data) as u64)
            } else {
                PrimitiveValue::Malformed
            },
            PrimitiveSymbolType::Ulint => if n >= 8 {
                PrimitiveValue::Uint(crate::le::read_u64_le(accessible_data))
            } else {
                PrimitiveValue::Malformed
            },
            PrimitiveSymbolType::String(size) => {
                let text = &accessible_data[0..size];
                assert(text@ =~= accessible_data@.take(size as int));
                PrimitiveValue::String(crate::strs::string_from_utf8_lossy(text))
            },
            PrimitiveSymbolType::Bool => if n >= 1 {
                PrimitiveValue::Bool(accessible_data[0] != 0)
            } else {
                PrimitiveValue::Malformed
            },
            PrimitiveSymbolType::Wstring(size) => {
                if size % 2 != 0 {
                    return PrimitiveValue::Malformed;
                }
                let mut words: Vec<u16> = Vec::new();
                let mut i: usize = 0;
                while i < size
                    invariant
                        size % 2 == 0,
                        size <= accessible_data@.len(),
                        i % 2 == 0,
                        i <= size,
                        words@ =~= words_of(accessible_data@, i as int / 2),
                    decreases size - i,
                {
                    let word = crate::le::read_u16_le(&accessible_data[i..i + 2]);
                    assert(accessible_data@.subrange(i as int, i + 2) =~= accessible_data@.skip(
                        2 * (i as int / 2),
                    ).take(2));
                    words.push(word);
                    i = i + 2;
                }
                PrimitiveValue::String(crate::strs::string_from_utf16_lossy(words.as_slice()))
            },
            PrimitiveSymbolType::Real80 => {
                if bytes.len() < 10 {
                    return PrimitiveValue::Malformed;
                }
                let buffer = first_ten(accessible_data);
                PrimitiveValue::Float(FloatBits::F64(extended_to_f64_bits(buffer)))
            },
            PrimitiveSymbolType::Void(size) => {
                let raw = &accessible_data[0..size];
                PrimitiveValue::Void(crate::le::copy_bytes(raw))
            },
        }
    }
}

/// Whether the word at `o` fits in `len` bytes (`o + 2 <= len`).
fn word_fits(o: usize, len: usize) -> (r: bool)
    ensures
        r == (o + 2 <= len),
{
    o <= len && len - o >= 2
}

impl PrimitiveSymbolDescriptor {
    /// Whether reading this descriptor out of `bytes` stays within them
    /// (see `read_in_bounds`), so that `read_from_bytes` may be called.
    pub fn read_fits(&self, bytes: &[u8]) -> (r: bool)
        ensures
            r == read_in_bounds(self@, bytes@),
    {
        let len = bytes.len();
        let off = self.root_symbol_offset as usize;
        if off > len {
            return false;
        }
        let acc_len = len - off;
        match self.symbol_type {
            PrimitiveSymbolType::TimeStruct(o) => {
                let r = o[0] <= acc_len && (!word_fits(o[0], acc_len) || o[1] <= acc_len) && (!(
                word_fits(o[0], acc_len) && word_fits(o[1], acc_len)) || o[3] <= acc_len) && (!(
                word_fits(o[0], acc_len) && word_fits(o[1], acc_len) && word_fits(o[3], acc_len))
                    || o[4] <= acc_len) && (!(word_fits(o[0], acc_len) && word_fits(o[1], acc_len)
                    && word_fits(o[3], acc_len) && word_fits(o[4], acc_len)) || o[5] <= acc_len)
                    && (!(word_fits(o[0], acc_len) && word_fits(o[1], acc_len) && word_fits(
                    o[3],
                    acc_len,
                ) && word_fits(o[4], acc_len) && word_fits(o[5], acc_len)) || o[6] <= acc_len)
                    && (!(word_fits(o[0], acc_len) && word_fits(o[1], acc_len) && word_fits(
                    o[3],
                    acc_len,
                ) && word_fits(o[4], acc_len) && word_fits(o[5], acc_len) && word_fits(
                    o[6],
                    acc_len,
                )) || o[7] <= acc_len);
                r
            },
            PrimitiveSymbolType::String(n) => n <= acc_len,
            PrimitiveSymbolType::Wstring(n) => n % 2 != 0 || n <= acc_len,
            PrimitiveSymbolType::Real80 => len < 10 || acc_len >= 10,
            PrimitiveSymbolType::Void(n) => n <= acc_len,
            _ => true,
        }
    }
}

/// Whether every descriptor of the type map reads within `bytes` (see
/// `map_in_bounds`), so that `SymbolMap::from_bytes` may be called.
pub fn map_fits(symbol_type_map: &SymbolTypeMap, bytes: &[u8]) -> (r: bool)
    ensures
        r == map_in_bounds(type_map_entries(*symbol_type_map), bytes@),
{
    let ghost te = type_map_entries(*symbol_type_map);
    let n = type_map_len(symbol_type_map);
    let mut i: usize = 0;
    while i < n
        invariant
            n == te.len(),
            te == type_map_entries(*symbol_type_map),
            i <= n,
            forall|j: int| 0 <= j < i ==> read_in_bounds(#[trigger] te[j].1, bytes@),
        decreases n - i,
    {
        match type_map_get_index(symbol_type_map, i) {
            Some((_path, descriptor)) => {
                if !descriptor.read_fits(bytes) {
                    assert(!read_in_bounds(te[i as int].1, bytes@));
                    return false;
                }
            },
            None => {},
        }
        i = i + 1;
    }
    true
}

/// Each entry of a type map, with the value its descriptor reads from `bytes`.
pub open spec fn decoded(s: Seq<(Seq<char>, DescriptorView)>, bytes: Seq<u8>) -> Seq<
    (Seq<char>, PrimitiveValueView),
> {
    s.map_values(|e: (Seq<char>, DescriptorView)| (e.0, value_of(e.1, bytes)))
}

/// Every descriptor of the map reads within `bytes`.
pub open spec fn map_in_bounds(s: Seq<(Seq<char>, DescriptorView)>, bytes: Seq<u8>) -> bool {
    forall|i: int| 0 <= i < s.len() ==> read_in_bounds(#[trigger] s[i].1, bytes)
}

/// Decoding a `SymbolMap` out of a symbol's bytes.
pub trait SymbolMapExt: Sized {
    spec fn entries(&self) -> Seq<(Seq<char>, PrimitiveValueView)>;

    /// One value per entry of the type map, inserted in the map's order.
    fn from_bytes(bytes: &[u8], symbol_type_map: &SymbolTypeMap) -> (m: Self)
        requires
            map_in_bounds(type_map_entries(*symbol_type_map), bytes@),
        ensures
            m.entries() == seq_insert_all(
                Seq::empty(),
                decoded(type_map_entries(*symbol_type_map), bytes@),
            ),
    ;
}

impl SymbolMapExt for SymbolMap {
    open spec fn entries(&self) -> Seq<(Seq<char>, PrimitiveValueView)> {
        value_map_entries(*self)
    }

    fn from_bytes(bytes: &[u8], symbol_type_map: &SymbolTypeMap) -> (m: Self) {
        let ghost te = type_map_entries(*symbol_type_map);
        let ghost all = decoded(te, bytes@);
        let mut map = value_map_new();
        let n = type_map_len(symbol_type_map);
        let mut i: usize = 0;
        assert(all.take(0) =~= Seq::<(Seq<char>, PrimitiveValueView)>::empty());
        while i < n
            invariant
                n == te.len(),
                te == type_map_entries(*symbol_type_map),
                all == decoded(te, bytes@),
                map_in_bounds(te, bytes@),
                i <= n,
                value_map_entries(map) == seq_insert_all(Seq::empty(), all.take(i as int)),
            decreases n - i,
        {
            match type_map_get_index(symbol_type_map, i) {
                Some((path, symbol_descriptor)) => {
                    let value = symbol_descriptor.read_from_bytes(bytes);
                    value_map_insert(&mut map, path.clone(), value);
                    assert(all.take(i + 1).drop_last() =~= all.take(i as int));
                },
                None => {},
            }
            i = i + 1;
        }
        assert(all.take(n as int) =~= all);
        map
    }
}

/// Decoding gives one value per path of the type map, in the same order:
/// a type map has no repeated path.
pub proof fn lemma_from_bytes_one_value_per_path(
    s: Seq<(Seq<char>, DescriptorView)>,
    bytes: Seq<u8>,
)
    requires
        keys_unique(s),
    ensures
        seq_insert_all(Seq::empty(), decoded(s, bytes)) == decoded(s, bytes),
        decoded(s, bytes).len() == s.len(),
        forall|i: int| 0 <= i < s.len() ==> (#[trigger] decoded(s, bytes)[i]).0 == s[i].0,
{
    let d = decoded(s, bytes);
    assert(Seq::<(Seq<char>, PrimitiveValueView)>::empty() + d =~= d);
    assert(keys_unique(d));
    lemma_insert_all_fresh(Seq::empty(), d);
}


/// The fields' maps, inserted in order, never repeat a path.
proof fn lemma_map_of_fields_unique(
    fs: Seq<(Seq<char>, (TypeTreeView, Option<u32>))>,
    n: int,
    offset: int,
    path: Seq<char>,
)
    ensures
        keys_unique(map_of_fields(fs, n, offset, path)),
    decreases n,
{
    if 0 < n <= fs.len() {
        lemma_map_of_fields_unique(fs, n - 1, offset, path);
        if let Some(o) = fs[n - 1].1.1 {
            lemma_insert_all_unique(
                map_of_fields(fs, n - 1, offset, path),
                map_of_tree(fs[n - 1].1.0, offset + o, child_path(path, fs[n - 1].0)),
            );
        }
    }
}

/// A type map never repeats a path.
pub proof fn lemma_map_of_tree_unique(t: TypeTreeView, offset: int, path: Seq<char>)
    ensures
        keys_unique(map_of_tree(t, offset, path)),
{
    if let TypeTreeView::Struct(fs, _) = t {
        if !is_timestruct(fs) {
            lemma_map_of_fields_unique(fs, fs.len() as int, offset, path);
        }
    }
}

/// Decoding bytes with the type map built from a type tree gives one value
/// per path of that map, in the map's order: inserting the decoded entries
/// changes nothing, and each entry keeps its path.
pub proof fn lemma_tree_map_one_value_per_path(
    t: TypeTreeView,
    offset: int,
    path: Seq<char>,
    bytes: Seq<u8>,
)
    ensures
        seq_insert_all(Seq::empty(), decoded(map_of_tree(t, offset, path), bytes)) == decoded(
            map_of_tree(t, offset, path),
            bytes,
        ),
        decoded(map_of_tree(t, offset, path), bytes).len() == map_of_tree(t, offset, path).len(),
        forall|i: int|
            0 <= i < map_of_tree(t, offset, path).len() ==> (#[trigger] decoded(
                map_of_tree(t, offset, path),
                bytes,
            )[i]).0 == map_of_tree(t, offset, path)[i].0,
{
    lemma_map_of_tree_unique(t, offset, path);
    lemma_from_bytes_one_value_per_path(map_of_tree(t, offset, path), bytes);
}

} // verus!
