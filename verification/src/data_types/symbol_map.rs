//! Flattened symbol maps in the data-type layout: every primitive leaf of a
//! type tree keyed by its dotted path (each name preceded by a period), with
//! TIMESTRUCTs of seven named words, and the values those leaves read out of
//! a symbol's bytes (`Missing` where a value does not fit).
use crate::data_types::symbol_tree::{extended_f64_bits, extended_to_f64_bits, first_ten};
use crate::le::{signed, u16_le, u32_le, u64_le};
use crate::ordmap::{
    entries_view, keys_unique, lemma_insert_all_fresh, lemma_insert_all_unique, seq_insert,
    seq_insert_all,
};
use crate::strs::{joined, str_eq, string_push, utf16_lossy, utf8_lossy};
use crate::symbol::map::{word_at, words_of, FloatBits};
use crate::symbol::type_tree::{lemma_struct_view, SymbolTypeTree, TypeTreeView};
use crate::timestamp::{valid_parts, Timestamp, TimestampParts};
use indexmap::IndexMap;
use vstd::prelude::*;

verus! {

pub type SymbolPath = String;

pub type SymbolOffset = u32;

/// An insertion-ordered map from dotted symbol paths to decoded values.
pub type SymbolMap = IndexMap<SymbolPath, PrimitiveValue>;

/// An insertion-ordered map from dotted symbol paths to leaf descriptors.
pub type SymbolTypeMap = IndexMap<SymbolPath, PrimitiveSymbolDescriptor>;

/// The primitive kinds of value a flattened symbol can hold.
#[derive(Debug, Clone, Copy, PartialEq, Eq)]
pub enum PrimitiveSymbolType {
    Int,
    Dint,
    Real,
    Lreal,
    Sint,
    Usint,
    Uint,
    Udint,
    Lint,
    Ulint,
    String(usize),
    Wstring(usize),
    Real80,
    Bool,
    /// A TIMESTRUCT, with the byte offsets of its seven words.
    TimeStruct([usize; 7]),
}

/// The mathematical value of a `PrimitiveSymbolType`.
pub enum PrimitiveTypeView {
    Int,
    Dint,
    Real,
    Lreal,
    Sint,
    Usint,
    Uint,
    Udint,
    Lint,
    Ulint,
    String(usize),
    Wstring(usize),
    Real80,
    Bool,
    TimeStruct(Seq<usize>),
}

impl View for PrimitiveSymbolType {
    type V = PrimitiveTypeView;

    open spec fn view(&self) -> PrimitiveTypeView {
        match *self {
            PrimitiveSymbolType::Int => PrimitiveTypeView::Int,
            PrimitiveSymbolType::Dint => PrimitiveTypeView::Dint,
            PrimitiveSymbolType::Real => PrimitiveTypeView::Real,
            PrimitiveSymbolType::Lreal => PrimitiveTypeView::Lreal,
            PrimitiveSymbolType::Sint => PrimitiveTypeView::Sint,
            PrimitiveSymbolType::Usint => PrimitiveTypeView::Usint,
            PrimitiveSymbolType::Uint => PrimitiveTypeView::Uint,
            PrimitiveSymbolType::Udint => PrimitiveTypeView::Udint,
            PrimitiveSymbolType::Lint => PrimitiveTypeView::Lint,
            PrimitiveSymbolType::Ulint => PrimitiveTypeView::Ulint,
            PrimitiveSymbolType::String(n) => PrimitiveTypeView::String(n),
            PrimitiveSymbolType::Wstring(n) => PrimitiveTypeView::Wstring(n),
            PrimitiveSymbolType::Real80 => PrimitiveTypeView::Real80,
            PrimitiveSymbolType::Bool => PrimitiveTypeView::Bool,
            PrimitiveSymbolType::TimeStruct(o) => PrimitiveTypeView::TimeStruct(o@),
        }
    }
}

/// Where and how to read one primitive value out of a symbol's bytes.
#[derive(Debug, Clone, Copy, PartialEq, Eq)]
pub struct PrimitiveSymbolDescriptor {
    symbol_type: PrimitiveSymbolType,
    offset: SymbolOffset,
}

/// A descriptor's kind and its offset from the start of the symbol.
pub type DescriptorView = (PrimitiveTypeView, u32);

impl View for PrimitiveSymbolDescriptor {
    type V = DescriptorView;

    closed spec fn view(&self) -> DescriptorView {
        (self.symbol_type@, self.offset)
    }
}

impl PrimitiveSymbolDescriptor {
    /// The descriptor of a value of kind `symbol_type` at `offset`.
    pub fn from_type(symbol_type: PrimitiveSymbolType, offset: SymbolOffset) -> (d: Self)
        ensures
            d@ == (symbol_type@, offset),
    {
        PrimitiveSymbolDescriptor { symbol_type, offset }
    }
}

impl From<(PrimitiveSymbolType, SymbolOffset)> for PrimitiveSymbolDescriptor {
    fn from(pair: (PrimitiveSymbolType, SymbolOffset)) -> Self {
        PrimitiveSymbolDescriptor { symbol_type: pair.0, offset: pair.1 }
    }
}

impl vstd::std_specs::convert::FromSpecImpl<(PrimitiveSymbolType, SymbolOffset)> for
    PrimitiveSymbolDescriptor {
    open spec fn obeys_from_spec() -> bool {
        true
    }

    closed spec fn from_spec(pair: (PrimitiveSymbolType, SymbolOffset)) -> Self {
        PrimitiveSymbolDescriptor { symbol_type: pair.0, offset: pair.1 }
    }
}

/// A decoded primitive value. Floating-point values are held by their bits:
/// a `Real` as single precision, an `Lreal` as double precision, and a
/// `Real80` as the double nearest to it.
#[derive(Debug, Clone, PartialEq)]
pub enum PrimitiveValue {
    Int(i64),
    Uint(u64),
    Float(FloatBits),
    String(String),
    Timestamp(Timestamp),
    Bool(bool),
    Missing,
}

/// The mathematical value of a `PrimitiveValue`.
pub enum PrimitiveValueView {
    Int(i64),
    Uint(u64),
    Float(FloatBits),
    String(Seq<char>),
    Timestamp(TimestampParts),
    Bool(bool),
    Missing,
}

impl View for PrimitiveValue {
    type V = PrimitiveValueView;

    open spec fn view(&self) -> PrimitiveValueView {
        match self {
            PrimitiveValue::Int(v) => PrimitiveValueView::Int(*v),
            PrimitiveValue::Uint(v) => PrimitiveValueView::Uint(*v),
            PrimitiveValue::Float(v) => PrimitiveValueView::Float(*v),
            PrimitiveValue::String(s) => PrimitiveValueView::String(s@),
            PrimitiveValue::Timestamp(t) => PrimitiveValueView::Timestamp(t.parts()),
            PrimitiveValue::Bool(b) => PrimitiveValueView::Bool(*b),
            PrimitiveValue::Missing => PrimitiveValueView::Missing,
        }
    }
}

/// The descriptor that `from` makes of a pair holds the pair's kind and offset.
pub proof fn lemma_descriptor_from_pair(pair: (PrimitiveSymbolType, SymbolOffset))
    ensures
        <PrimitiveSymbolDescriptor as vstd::std_specs::convert::FromSpec<
            (PrimitiveSymbolType, SymbolOffset),
        >>::from_spec(pair)@ == (pair.0@, pair.1),
{
}

// ----- The two maps, and the `IndexMap` methods the library calls. -----
/// What a `SymbolTypeMap` holds: its entries in order, keys viewed.
pub uninterp spec fn descriptor_map_entries(m: SymbolTypeMap) -> Seq<(Seq<char>, DescriptorView)>;

/// What a `SymbolMap` holds: its entries in order, keys and values viewed.
pub uninterp spec fn primitive_map_entries(m: SymbolMap) -> Seq<(Seq<char>, PrimitiveValueView)>;

/// `IndexMap::new`: an empty map.
#[verifier::external_body]
fn descriptor_map_new() -> (m: SymbolTypeMap)
    ensures
        descriptor_map_entries(m) == Seq::<(Seq<char>, DescriptorView)>::empty(),
{
    IndexMap::new()
}

/// `IndexMap::insert`: a present key keeps its place and takes the new
/// value; a new key goes last.
#[verifier::external_body]
fn descriptor_map_insert(m: &mut SymbolTypeMap, key: String, value: PrimitiveSymbolDescriptor)
    ensures
        descriptor_map_entries(*final(m)) == seq_insert(
            descriptor_map_entries(*old(m)),
            key@,
            value@,
        ),
{
    m.insert(key, value);
}

/// `IndexMap::append`: moves every entry of `other`, in order, into `m` as
/// `insert` would, leaving `other` empty.
#[verifier::external_body]
fn descriptor_map_append(m: &mut SymbolTypeMap, other: &mut SymbolTypeMap)
    ensures
        descriptor_map_entries(*final(m)) == seq_insert_all(
            descriptor_map_entries(*old(m)),
            descriptor_map_entries(*old(other)),
        ),
        descriptor_map_entries(*final(other)) == Seq::<(Seq<char>, DescriptorView)>::empty(),
{
    m.append(other);
}

/// `IndexMap::len`: the number of entries.
#[verifier::external_body]
fn descriptor_map_len(m: &SymbolTypeMap) -> (n: usize)
    ensures
        n == descriptor_map_entries(*m).len(),
{
    m.len()
}

/// `IndexMap::get_index`: the entry at a position, if there is one.
#[verifier::external_body]
fn descriptor_map_get_index(m: &SymbolTypeMap, i: usize) -> (r: Option<
    (&String, &PrimitiveSymbolDescriptor),
>)
    ensures
        r is Some <==> i < descriptor_map_entries(*m).len(),
        r matches Some((k, v)) ==> k@ == descriptor_map_entries(*m)[i as int].0 && v@
            == descriptor_map_entries(*m)[i as int].1,
{
    m.get_index(i)
}

/// `IndexMap::new`: an empty map.
#[verifier::external_body]
fn primitive_map_new() -> (m: SymbolMap)
    ensures
        primitive_map_entries(m) == Seq::<(Seq<char>, PrimitiveValueView)>::empty(),
{
    IndexMap::new()
}

/// `IndexMap::insert`: a present key keeps its place and takes the new
/// value; a new key goes last.
#[verifier::external_body]
fn primitive_map_insert(m: &mut SymbolMap, key: String, value: PrimitiveValue)
    ensures
        primitive_map_entries(*final(m)) == seq_insert(
            primitive_map_entries(*old(m)),
            key@,
            value@,
        ),
{
    m.insert(key, value);
}

} // verus!

verus! {

// ----- From a type tree to a type map. -----
/// The words of a TIMESTRUCT, in order.
pub open spec fn timestruct_keys() -> Seq<Seq<char>> {
    seq!["year"@, "month"@, "day"@, "hour"@, "minute"@, "second"@, "milliseconds"@]
}

/// The fields' names are exactly the words of a TIMESTRUCT, in order.
pub open spec fn is_timestruct(fs: Seq<(Seq<char>, (TypeTreeView, Option<u32>))>) -> bool {
    fs.len() == 7 && forall|i: int| 0 <= i < 7 ==> #[trigger] fs[i].0 == timestruct_keys()[i]
}

/// The offsets of a TIMESTRUCT's words, when every word is an inline `Uint`.
pub open spec fn timestruct_offsets(fs: Seq<(Seq<char>, (TypeTreeView, Option<u32>))>) -> Option<
    Seq<usize>,
> {
    if forall|i: int| 0 <= i < fs.len() ==> (#[trigger] fs[i].1.1 is Some && fs[i].1.0 is Uint) {
        Some(Seq::new(fs.len(), |i: int| fs[i].1.1->0 as usize))
    } else {
        None
    }
}

/// The path of a child called `name` below `path`: the two joined by a
/// period, also below the root (an empty path).
pub open spec fn dotted_path(path: Seq<char>, name: Seq<char>) -> Seq<char> {
    joined(path, '.', name)
}

/// The leaf descriptor kind for a primitive type, if the type is one.
pub open spec fn leaf_type(t: TypeTreeView) -> Option<PrimitiveTypeView> {
    match t {
        TypeTreeView::Int => Some(PrimitiveTypeView::Int),
        TypeTreeView::Dint => Some(PrimitiveTypeView::Dint),
        TypeTreeView::Real => Some(PrimitiveTypeView::Real),
        TypeTreeView::Lreal => Some(PrimitiveTypeView::Lreal),
        TypeTreeView::Sint => Some(PrimitiveTypeView::Sint),
        TypeTreeView::Usint => Some(PrimitiveTypeView::Usint),
        TypeTreeView::Uint => Some(PrimitiveTypeView::Uint),
        TypeTreeView::Udint => Some(PrimitiveTypeView::Udint),
        TypeTreeView::Lint => Some(PrimitiveTypeView::Lint),
        TypeTreeView::Ulint => Some(PrimitiveTypeView::Ulint),
        TypeTreeView::String(n) => Some(PrimitiveTypeView::String(n)),
        TypeTreeView::Wstring(n) => Some(PrimitiveTypeView::Wstring(n)),
        TypeTreeView::Real80 => Some(PrimitiveTypeView::Real80),
        TypeTreeView::Bool => Some(PrimitiveTypeView::Bool),
        _ => None,
    }
}

/// The flattened map of a type tree placed at `offset`, keyed below `path`:
/// a TIMESTRUCT is one timestamp leaf (no entry at all if a word is not an
/// inline `Uint`); another struct is the maps of its inline fields inserted
/// in order; arrays, void, compound, unknown and missing types have no entry.
pub open spec fn map_of_tree(t: TypeTreeView, offset: int, path: Seq<char>) -> Seq<
    (Seq<char>, DescriptorView),
>
    decreases t, 0int,
{
    match t {
        TypeTreeView::Struct(fs, _) => {
            if is_timestruct(fs) {
                match timestruct_offsets(fs) {
                    Some(o) => seq![(path, (PrimitiveTypeView::TimeStruct(o), offset as u32))],
                    None => Seq::empty(),
                }
            } else {
                map_of_fields(fs, fs.len() as int, offset, path)
            }
        },
        _ => match leaf_type(t) {
            Some(k) => seq![(path, (k, offset as u32))],
            None => Seq::empty(),
        },
    }
}

/// The maps of the first `n` fields, inserted in order.
pub open spec fn map_of_fields(
    fs: Seq<(Seq<char>, (TypeTreeView, Option<u32>))>,
    n: int,
    offset: int,
    path: Seq<char>,
) -> Seq<(Seq<char>, DescriptorView)>
    decreases fs, n,
{
    if n <= 0 || n > fs.len() {
        Seq::empty()
    } else {
        let prev = map_of_fields(fs, n - 1, offset, path);
        match fs[n - 1].1.1 {
            Some(o) => seq_insert_all(
                prev,
                map_of_tree(fs[n - 1].1.0, offset + o, dotted_path(path, fs[n - 1].0)),
            ),
            None => prev,
        }
    }
}

/// The inputs `from_tree` handles: the offsets summed down the tree stay
/// within `u32`.
pub open spec fn tree_map_ok(t: TypeTreeView, offset: int) -> bool
    decreases t, 0int,
{
    match t {
        TypeTreeView::Struct(fs, _) => is_timestruct(fs) || fields_map_ok(
            fs,
            fs.len() as int,
            offset,
        ),
        _ => true,
    }
}

pub open spec fn fields_map_ok(
    fs: Seq<(Seq<char>, (TypeTreeView, Option<u32>))>,
    n: int,
    offset: int,
) -> bool
    decreases fs, n,
{
    if n <= 0 || n > fs.len() {
        true
    } else {
        fields_map_ok(fs, n - 1, offset) && match fs[n - 1].1.1 {
            Some(o) => offset + o <= u32::MAX && tree_map_ok(fs[n - 1].1.0, offset + o),
            None => true,
        }
    }
}

/// Building a `SymbolTypeMap` from a `SymbolTypeTree`.
pub trait SymbolTypeMapExt: Sized {
    spec fn entries(&self) -> Seq<(Seq<char>, DescriptorView)>;

    /// The flattened map of `tree` placed at `offset`, keyed below `path`.
    fn from_tree(tree: SymbolTypeTree, offset: SymbolOffset, path: String) -> (m: Self)
        requires
            tree_map_ok(tree@, offset as int),
        ensures
            m.entries() == map_of_tree(tree@, offset as int, path@),
    ;
}

impl SymbolTypeMapExt for SymbolTypeMap {
    open spec fn entries(&self) -> Seq<(Seq<char>, DescriptorView)> {
        descriptor_map_entries(*self)
    }

    fn from_tree(tree: SymbolTypeTree, offset: SymbolOffset, path: String) -> (m: Self) {
        map_from_tree(&tree, offset, path)
    }
}

/// The TIMESTRUCT word at position `i`.
fn timestruct_key(i: usize) -> (k: &'static str)
    requires
        i < 7,
    ensures
        k@ == timestruct_keys()[i as int],
{
    if i == 0 {
        "year"
    } else if i == 1 {
        "month"
    } else if i == 2 {
        "day"
    } else if i == 3 {
        "hour"
    } else if i == 4 {
        "minute"
    } else if i == 5 {
        "second"
    } else {
        "milliseconds"
    }
}

/// Whether the fields' names are exactly the TIMESTRUCT words, in order.
fn fields_are_timestruct(fs: &Vec<(String, (SymbolTypeTree, Option<u32>))>) -> (r: bool)
    ensures
        r == is_timestruct(entries_view(fs@)),
{
    let ghost ev = entries_view(fs@);
    if fs.len() != 7 {
        return false;
    }
    let mut i: usize = 0;
    while i < 7
        invariant
            fs@.len() == 7,
            ev == entries_view(fs@),
            i <= 7,
            forall|j: int| 0 <= j < i ==> #[trigger] ev[j].0 == timestruct_keys()[j],
        decreases 7 - i,
    {
        assert(ev[i as int].0 == fs@[i as int].0@);
        if !str_eq(timestruct_key(i), fs[i].0.as_str()) {
            return false;
        }
        i = i + 1;
    }
    true
}

/// Builds `dotted_path(path, name)`.
fn make_dotted_path(path: &str, name: &str) -> (r: String)
    ensures
        r@ == dotted_path(path@, name@),
{
    let mut r = path.to_owned();
    string_push(&mut r, '.');
    r.append(name);
    r
}

fn map_from_tree(tree: &SymbolTypeTree, offset: SymbolOffset, path: String) -> (m: SymbolTypeMap)
    requires
        tree_map_ok(tree@, offset as int),
    ensures
        descriptor_map_entries(m) == map_of_tree(tree@, offset as int, path@),
    decreases tree,
{
    let mut map = descriptor_map_new();
    match tree {
        SymbolTypeTree::Struct(index_map, size) => {
            proof {
                lemma_struct_view(*index_map, *size);
            }
            let ghost fs = entries_view(index_map@);
            if fields_are_timestruct(index_map) {
                let mut offsets: [usize; 7] = [0;7];
                let mut i: usize = 0;
                while i < 7
                    invariant
                        index_map@.len() == 7,
                        tree@ == TypeTreeView::Struct(fs, *size),
                        fs == entries_view(index_map@),
                        is_timestruct(fs),
                        i <= 7,
                        forall|j: int| 0 <= j < i ==> #[trigger] fs[j].1.1 is Some && fs[j].1.0 is Uint
                            && offsets@[j] == fs[j].1.1->0 as usize,
                    decreases 7 - i,
                {
                    let entry = &index_map[i];
                    assert(fs[i as int] == (entry.0@, (entry.1.0@, entry.1.1)));
                    // A word with no offset, or of another type than `Uint`,
                    // makes the TIMESTRUCT unreadable.
                    let child_offset = match entry.1.1 {
                        Some(o) => o,
                        None => {
                            assert(!(fs[i as int].1.1 is Some && fs[i as int].1.0 is Uint));
                            assert(timestruct_offsets(fs) is None);
                            return descriptor_map_new();
                        },
                    };
                    match &entry.1.0 {
                        SymbolTypeTree::Uint => {},
                        _ => {
                            assert(fs[i as int].1.0 !is Uint);
                            assert(!(fs[i as int].1.1 is Some && fs[i as int].1.0 is Uint));
                            assert(timestruct_offsets(fs) is None);
                            return descriptor_map_new();
                        },
                    }
                    offsets[i] = child_offset as usize;
                    i = i + 1;
                }
                let ghost o = Seq::new(fs.len(), |j: int| fs[j].1.1->0 as usize);
                assert(offsets@ =~= o);
                descriptor_map_insert(
                    &mut map,
                    path,
                    PrimitiveSymbolDescriptor::from_type(
                        PrimitiveSymbolType::TimeStruct(offsets),
                        offset,
                    ),
                );
                assert(descriptor_map_entries(map) =~= seq![
                    (path@, (PrimitiveTypeView::TimeStruct(o), offset)),
                ]);
            } else {
                let mut i: usize = 0;
                while i < index_map.len()
                    invariant
                        fs == entries_view(index_map@),
                        fs.len() == index_map@.len(),
                        !is_timestruct(fs),
                        i <= fs.len(),
                        tree_map_ok(tree@, offset as int),
                        tree@ == TypeTreeView::Struct(fs, *size),
                        *tree == SymbolTypeTree::Struct(*index_map, *size),
                        descriptor_map_entries(map) == map_of_fields(
                            fs,
                            i as int,
                            offset as int,
                            path@,
                        ),
                    decreases fs.len() - i,
                {
                    let entry = &index_map[i];
                    assert(fs[i as int] == (entry.0@, (entry.1.0@, entry.1.1)));
                    proof {
                        lemma_fields_map_ok_prefix(fs, fs.len() as int, i + 1, offset as int);
                    }
                    match entry.1.1 {
                        Some(child_offset) => {
                            let child_path = make_dotted_path(path.as_str(), entry.0.as_str());
                            assert(decreases_to!(*tree => *index_map));
                            assert(decreases_to!(*index_map => index_map@));
                            assert(decreases_to!(index_map@ => index_map@[i as int]));
                            assert(decreases_to!(index_map@[i as int] => index_map@[i as int].1));
                            assert(decreases_to!(index_map@[i as int].1 => index_map@[i as int].1.0));
                            let mut child = map_from_tree(&entry.1.0, offset + child_offset, child_path);
                            descriptor_map_append(&mut map, &mut child);
                        },
                        None => {},
                    }
                    i = i + 1;
                }
            }
        },
        SymbolTypeTree::Int => {
            descriptor_map_insert(&mut map, path, (PrimitiveSymbolType::Int, offset).into());
        },
        SymbolTypeTree::Dint => {
            descriptor_map_insert(&mut map, path, (PrimitiveSymbolType::Dint, offset).into());
        },
        SymbolTypeTree::Real => {
            descriptor_map_insert(&mut map, path, (PrimitiveSymbolType::Real, offset).into());
        },
        SymbolTypeTree::Lreal => {
            descriptor_map_insert(&mut map, path, (PrimitiveSymbolType::Lreal, offset).into());
        },
        SymbolTypeTree::Sint => {
            descriptor_map_insert(&mut map, path, (PrimitiveSymbolType::Sint, offset).into());
        },
        SymbolTypeTree::Usint => {
            descriptor_map_insert(&mut map, path, (PrimitiveSymbolType::Usint, offset).into());
        },
        SymbolTypeTree::Uint => {
            descriptor_map_insert(&mut map, path, (PrimitiveSymbolType::Uint, offset).into());
        },
        SymbolTypeTree::Udint => {
            descriptor_map_insert(&mut map, path, (PrimitiveSymbolType::Udint, offset).into());
        },
        SymbolTypeTree::Lint => {
            descriptor_map_insert(&mut map, path, (PrimitiveSymbolType::Lint, offset).into());
        },
        SymbolTypeTree::Ulint => {
            descriptor_map_insert(&mut map, path, (PrimitiveSymbolType::Ulint, offset).into());
        },
        SymbolTypeTree::String(size) => {
            descriptor_map_insert(&mut map, path, (PrimitiveSymbolType::String(*size), offset).into());
        },
        SymbolTypeTree::Wstring(size) => {
            descriptor_map_insert(&mut map, path, (PrimitiveSymbolType::Wstring(*size), offset).into());
        },
        SymbolTypeTree::Real80 => {
            descriptor_map_insert(&mut map, path, (PrimitiveSymbolType::Real80, offset).into());
        },
        SymbolTypeTree::Bool => {
            descriptor_map_insert(&mut map, path, (PrimitiveSymbolType::Bool, offset).into());
        },
        // Arrays, void, compound and unknown types are not flattened.
        _ => {},
    }
    map
}

/// Whether `from_tree` handles `tree` placed at `offset` (see
/// `tree_map_ok`).
pub fn tree_map_fits(tree: &SymbolTypeTree, offset: SymbolOffset) -> (r: bool)
    ensures
        r == tree_map_ok(tree@, offset as int),
    decreases tree,
{
    match tree {
        SymbolTypeTree::Struct(fields, size) => {
            proof {
                lemma_struct_view(*fields, *size);
            }
            let ghost fs = entries_view(fields@);
            if fields_are_timestruct(fields) {
                return true;
            }
            let mut i: usize = 0;
            while i < fields.len()
                invariant
                    fs == entries_view(fields@),
                    fs.len() == fields@.len(),
                    *tree == SymbolTypeTree::Struct(*fields, *size),
                    tree@ == TypeTreeView::Struct(fs, *size),
                    !is_timestruct(fs),
                    i <= fs.len(),
                    fields_map_ok(fs, i as int, offset as int),
                decreases fs.len() - i,
            {
                let entry = &fields[i];
                assert(fs[i as int] == (entry.0@, (entry.1.0@, entry.1.1)));
                if let Some(o) = entry.1.1 {
                    if o > u32::MAX - offset {
                        proof {
                            lemma_fields_map_ok_prefix_fails(fs, fs.len() as int, i + 1, offset as int);
                        }
                        return false;
                    }
                    assert(decreases_to!(*tree => *fields));
                    assert(decreases_to!(*fields => fields@));
                    assert(decreases_to!(fields@ => fields@[i as int]));
                    if !tree_map_fits(&entry.1.0, offset + o) {
                        proof {
                            lemma_fields_map_ok_prefix_fails(fs, fs.len() as int, i + 1, offset as int);
                        }
                        return false;
                    }
                }
                i = i + 1;
            }
            true
        },
        _ => true,
    }
}

/// Where the checks fail on a prefix of the fields, they fail on all.
proof fn lemma_fields_map_ok_prefix_fails(
    fs: Seq<(Seq<char>, (TypeTreeView, Option<u32>))>,
    n: int,
    k: int,
    offset: int,
)
    requires
        !fields_map_ok(fs, k, offset),
        0 < k <= n <= fs.len(),
    ensures
        !fields_map_ok(fs, n, offset),
    decreases n - k,
{
    if k < n {
        lemma_fields_map_ok_prefix_fails(fs, n - 1, k, offset);
    }
}

/// The checks on a prefix of the fields hold when they hold on all of them.
proof fn lemma_fields_map_ok_prefix(
    fs: Seq<(Seq<char>, (TypeTreeView, Option<u32>))>,
    n: int,
    k: int,
    offset: int,
)
    requires
        fields_map_ok(fs, n, offset),
        0 < k <= n <= fs.len(),
    ensures
        fields_map_ok(fs, k, offset),
        match fs[k - 1].1.1 {
            Some(o) => offset + o <= u32::MAX && tree_map_ok(fs[k - 1].1.0, offset + o),
            None => true,
        },
    decreases n - k,
{
    if k < n {
        lemma_fields_map_ok_prefix(fs, n - 1, k, offset);
    }
}

} // verus!

verus! {

// ----- From bytes to values. -----
/// Reading the seven TIMESTRUCT words at offsets `o` out of `len` bytes
/// stays in bounds: each word starts within the data as long as the words
/// before it fit.
pub open spec fn timestruct_in_bounds(o: Seq<usize>, len: int) -> bool {
    o.len() == 7 && forall|k: int|
        0 <= k < 7 ==> (forall|j: int| 0 <= j < k ==> #[trigger] o[j] + 2 <= len) ==> #[trigger] o[k]
            <= len
}

/// The timestamp a TIMESTRUCT holds: `Missing` when a word does not fit or
/// the parts name no date-time.
pub open spec fn timestruct_value(o: Seq<usize>, acc: Seq<u8>) -> PrimitiveValueView {
    if forall|k: int| 0 <= k < 7 ==> #[trigger] word_at(acc, o[k] as int) is Some {
        let parts = TimestampParts {
            year: word_at(acc, o[0] as int)->0,
            month: word_at(acc, o[1] as int)->0,
            day: word_at(acc, o[2] as int)->0,
            hour: word_at(acc, o[3] as int)->0,
            minute: word_at(acc, o[4] as int)->0,
            second: word_at(acc, o[5] as int)->0,
            millisecond: word_at(acc, o[6] as int)->0,
        };
        if valid_parts(parts) {
            PrimitiveValueView::Timestamp(parts)
        } else {
            PrimitiveValueView::Missing
        }
    } else {
        PrimitiveValueView::Missing
    }
}

/// The value a descriptor reads out of a symbol's bytes. Numbers are read
/// little-endian from the descriptor's offset; one that does not fit in the
/// remaining bytes reads as `Missing`. A `Bool` is true unless its byte is
/// 1, and needs exactly one remaining byte.
pub open spec fn value_of(d: DescriptorView, bytes: Seq<u8>) -> PrimitiveValueView {
    let acc = bytes.skip(d.1 as int);
    match d.0 {
        PrimitiveTypeView::TimeStruct(o) => timestruct_value(o, acc),
        PrimitiveTypeView::Real => if acc.len() >= 4 {
            PrimitiveValueView::Float(FloatBits::F32(u32_le(acc) as u32))
        } else {
            PrimitiveValueView::Missing
        },
        PrimitiveTypeView::Lreal => if acc.len() >= 8 {
            PrimitiveValueView::Float(FloatBits::F64(u64_le(acc) as u64))
        } else {
            PrimitiveValueView::Missing
        },
        PrimitiveTypeView::Sint => if acc.len() >= 1 {
            PrimitiveValueView::Int(signed(acc[0] as int, 128) as i64)
        } else {
            PrimitiveValueView::Missing
        },
        PrimitiveTypeView::Int => if acc.len() >= 2 {
            PrimitiveValueView::Int(signed(u16_le(acc), 32768) as i64)
        } else {
            PrimitiveValueView::Missing
        },
        PrimitiveTypeView::Dint => if acc.len() >= 4 {
            PrimitiveValueView::Int(signed(u32_le(acc), 0x8000_0000) as i64)
        } else {
            PrimitiveValueView::Missing
        },
        PrimitiveTypeView::Lint => if acc.len() >= 8 {
            PrimitiveValueView::Int(signed(u64_le(acc), 0x8000_0000_0000_0000) as i64)
        } else {
            PrimitiveValueView::Missing
        },
        PrimitiveTypeView::Usint => if acc.len() >= 1 {
            PrimitiveValueView::Uint(acc[0] as u64)
        } else {
            PrimitiveValueView::Missing
        },
        PrimitiveTypeView::Uint => if acc.len() >= 2 {
            PrimitiveValueView::Uint(u16_le(acc) as u64)
        } else {
            PrimitiveValueView::Missing
        },
        PrimitiveTypeView::Udint => if acc.len() >= 4 {
            PrimitiveValueView::Uint(u32_le(acc) as u64)
        } else {
            PrimitiveValueView::Missing
        },
        PrimitiveTypeView::Ulint => if acc.len() >= 8 {
            PrimitiveValueView::Uint(u64_le(acc) as u64)
        } else {
            PrimitiveValueView::Missing
        },
        PrimitiveTypeView::String(n) => PrimitiveValueView::String(utf8_lossy(acc.take(n as int))),
        PrimitiveTypeView::Bool => if acc.len() == 1 {
            PrimitiveValueView::Bool(acc[0] != 1)
        } else {
            PrimitiveValueView::Missing
        },
        PrimitiveTypeView::Wstring(n) => if n % 2 != 0 {
            PrimitiveValueView::Missing
        } else {
            PrimitiveValueView::String(utf16_lossy(words_of(acc, n as int / 2)))
        },
        PrimitiveTypeView::Real80 => if bytes.len() < 10 {
            PrimitiveValueView::Missing
        } else {
            PrimitiveValueView::Float(FloatBits::F64(extended_f64_bits(acc.take(10))))
        },
    }
}

/// The inputs on which reading a descriptor stays within the bytes: its
/// offset, and for text and TIMESTRUCTs every byte it slices. (An 80-bit
/// float is checked against the whole buffer, not the part after the
/// offset, so that part must then hold ten bytes.)
pub open spec fn read_in_bounds(d: DescriptorView, bytes: Seq<u8>) -> bool {
    let acc_len = bytes.len() - d.1;
    &&& d.1 <= bytes.len()
    &&& match d.0 {
        PrimitiveTypeView::TimeStruct(o) => timestruct_in_bounds(o, acc_len),
        PrimitiveTypeView::String(n) => n <= acc_len,
        PrimitiveTypeView::Wstring(n) => n % 2 != 0 || n <= acc_len,
        PrimitiveTypeView::Real80 => bytes.len() < 10 || acc_len >= 10,
        _ => true,
    }
}

/// Reads the 16-bit word at offset `o` of `acc`, as `u16::read_from_prefix`
/// on `&acc[o..]` does.
fn word_at_exec(acc: &[u8], o: usize) -> (r: Option<u16>)
    requires
        o <= acc@.len(),
    ensures
        r == word_at(acc@, o as int),
{
    let rest = &acc[o..acc.len()];
    if rest.len() >= 2 {
        assert(rest@ =~= acc@.skip(o as int));
        Some(crate::le::read_u16_le(rest))
    } else {
        None
    }
}

impl PrimitiveSymbolDescriptor {
    fn timestruct_from_bytes(offsets: [usize; 7], bytes: &[u8]) -> (r: PrimitiveValue)
        requires
            timestruct_in_bounds(offsets@, bytes@.len() as int),
        ensures
            r@ == timestruct_value(offsets@, bytes@),
    {
        let ghost o = offsets@;
        let mut words: [u16; 7] = [0;7];
        let mut k: usize = 0;
        while k < 7
            invariant
                o == offsets@,
                timestruct_in_bounds(o, bytes@.len() as int),
                k <= 7,
                forall|j: int| 0 <= j < k ==> #[trigger] word_at(bytes@, o[j] as int) == Some(words@[j]),
                forall|j: int| 0 <= j < k ==> #[trigger] o[j] + 2 <= bytes@.len(),
            decreases 7 - k,
        {
            assert(o[k as int] <= bytes@.len());
            match word_at_exec(bytes, offsets[k]) {
                Some(w) => {
                    words[k] = w;
                },
                None => {
                    assert(word_at(bytes@, o[k as int] as int) is None);
                    return PrimitiveValue::Missing;
                },
            }
            k = k + 1;
        }
        match Timestamp::from_parts(
            words[0],
            words[1],
            words[2],
            words[3],
            words[4],
            words[5],
            words[6],
        ) {
            Some(t) => PrimitiveValue::Timestamp(t),
            None => PrimitiveValue::Missing,
        }
    }

    /// The value this descriptor reads out of a symbol's bytes.
    pub fn read_from_bytes(&self, bytes: &[u8]) -> (v: PrimitiveValue)
        requires
            read_in_bounds(self@, bytes@),
        ensures
            v@ == value_of(self@, bytes@),
    {
        let accessible_data: &[u8] = &bytes[(self.offset as usize)..bytes.len()];
        assert(accessible_data@ =~= bytes@.skip(self.offset as int));
        let n = accessible_data.len();
        match self.symbol_type {
            PrimitiveSymbolType::TimeStruct(offsets) => {
                Self::timestruct_from_bytes(offsets, accessible_data)
            },
            PrimitiveSymbolType::Real => if n >= 4 {
                PrimitiveValue::Float(FloatBits::F32(crate::le::read_u32_le(accessible_data)))
            } else {
                PrimitiveValue::Missing
            },
            PrimitiveSymbolType::Lreal => if n >= 8 {
                PrimitiveValue::Float(FloatBits::F64(crate::le::read_u64_le(accessible_data)))
            } else {
                PrimitiveValue::Missing
            },
            PrimitiveSymbolType::Sint => if n >= 1 {
                let u = accessible_data[0];
                PrimitiveValue::Int(
                    if u < 128 {
                        u as i64
                    } else {
                        u as i64 - 256
                    },
                )
            } else {
                PrimitiveValue::Missing
            },
            PrimitiveSymbolType::Int => if n >= 2 {
                let u = crate::le::read_u16_le(accessible_data);
                PrimitiveValue::Int(
                    if u < 32768 {
                        u as i64
                    } else {
                        u as i64 - 65536
                    },
                )
            } else {
                PrimitiveValue::Missing
            },
            PrimitiveSymbolType::Dint => if n >= 4 {
                let u = crate::le::read_u32_le(accessible_data);
                PrimitiveValue::Int(
                    if u < 0x8000_0000 {
                        u as i64
                    } else {
                        u as i64 - 0x1_0000_0000
                    },
                )
            } else {
                PrimitiveValue::Missing
            },
            PrimitiveSymbolType::Lint => if n >= 8 {
                let u = crate::le::read_u64_le(accessible_data);
                PrimitiveValue::Int(
                    if u < 0x8000_0000_0000_0000 {
                        u as i64
                    } else {
                        (u - 0x8000_0000_0000_0000) as i64 + i64::MIN
                    },
                )
            } else {
                PrimitiveValue::Missing
            },
            PrimitiveSymbolType::Usint => if n >= 1 {
                PrimitiveValue::Uint(accessible_data[0] as u64)
            } else {
                PrimitiveValue::Missing
            },
            PrimitiveSymbolType::Uint => if n >= 2 {
                PrimitiveValue::Uint(crate::le::read_u16_le(accessible_data) as u64)
            } else {
                PrimitiveValue::Missing
            },
            PrimitiveSymbolType::Udint => if n >= 4 {
                PrimitiveValue::Uint(crate::le::read_u32_le(accessible_data) as u64)
            } else {
                PrimitiveValue::Missing
            },
            PrimitiveSymbolType::Ulint => if n >= 8 {
                PrimitiveValue::Uint(crate::le::read_u64_le(accessible_data))
            } else {
                PrimitiveValue::Missing
            },
            PrimitiveSymbolType::String(size) => {
                let text = &accessible_data[0..size];
                assert(text@ =~= accessible_data@.take(size as int));
                PrimitiveValue::String(crate::strs::string_from_utf8_lossy(text))
            },
            PrimitiveSymbolType::Bool => if n == 1 {
                PrimitiveValue::Bool(accessible_data[0] != 1)
            } else {
                PrimitiveValue::Missing
            },
            PrimitiveSymbolType::Wstring(size) => {
                if size % 2 != 0 {
                    return PrimitiveValue::Missing;
                }
                let mut words: Vec<u16> = Vec::new();
                let mut i: usize = 0;
                while i < size
                    invariant
                        size % 2 == 0,
                        size <= accessible_data@.len(),
                        i % 2 == 0,
                        i <= size,
                        words@ =~= words_of(accessible_data@, i as int / 2),
                    decreases size - i,
                {
                    let word = crate::le::read_u16_le(&accessible_data[i..i + 2]);
                    assert(accessible_data@.subrange(i as int, i + 2) =~= accessible_data@.skip(
                        2 * (i as int / 2),
                    ).take(2));
                    words.push(word);
                    i = i + 2;
                }
                PrimitiveValue::String(crate::strs::string_from_utf16_lossy(words.as_slice()))
            },
            PrimitiveSymbolType::Real80 => {
                if bytes.len() < 10 {
                    return PrimitiveValue::Missing;
                }
                let buffer = first_ten(accessible_data);
                PrimitiveValue::Float(FloatBits::F64(extended_to_f64_bits(buffer)))
            },
        }
    }
}

} // verus!

verus! {

impl PrimitiveSymbolDescriptor {
    /// Whether reading this descriptor out of `bytes` stays within them
    /// (see `read_in_bounds`), so that `read_from_bytes` may be called.
    pub fn read_fits(&self, bytes: &[u8]) -> (r: bool)
        ensures
            r == read_in_bounds(self@, bytes@),
    {
        let len = bytes.len();
        let off = self.offset as usize;
        if off > len {
            return false;
        }
        let acc_len = len - off;
        match self.symbol_type {
            PrimitiveSymbolType::TimeStruct(o) => {
                let mut k: usize = 0;
                while k < 7
                    invariant
                        self.symbol_type == PrimitiveSymbolType::TimeStruct(o),
                        self.offset <= bytes@.len(),
                        acc_len == bytes@.len() - self.offset,
                        k <= 7,
                        forall|j: int| 0 <= j < k ==> #[trigger] o@[j] + 2 <= acc_len,
                    decreases 7 - k,
                {
                    if o[k] > acc_len {
                        assert(!timestruct_in_bounds(o@, acc_len as int)) by {
                            assert(forall|j: int| 0 <= j < k ==> #[trigger] o@[j] + 2 <= acc_len);
                            assert(!(o@[k as int] <= acc_len));
                        }
                        assert(self@.0 == PrimitiveTypeView::TimeStruct(o@));
                        return false;
                    }
                    if acc_len - o[k] < 2 {
                        // This word does not fit, so the words after it are
                        // never read.
                        assert(timestruct_in_bounds(o@, acc_len as int)) by {
                            assert forall|m: int|
                                0 <= m < 7 && (forall|j: int|
                                    0 <= j < m ==> #[trigger] o@[j] + 2 <= acc_len) implies #[trigger] o@[m]
                                <= acc_len by {
                                if m > k {
                                    assert(o@[k as int] + 2 <= acc_len);
                                }
                            }
                        }
                        assert(self@.0 == PrimitiveTypeView::TimeStruct(o@));
                        return true;
                    }
                    k = k + 1;
                }
                true
            },
            PrimitiveSymbolType::String(n) => n <= acc_len,
            PrimitiveSymbolType::Wstring(n) => n % 2 != 0 || n <= acc_len,
            PrimitiveSymbolType::Real80 => len < 10 || acc_len >= 10,
            _ => true,
        }
    }
}

/// Whether every descriptor of the type map reads within `bytes` (see
/// `map_in_bounds`), so that `SymbolMap::from_bytes` may be called.
pub fn map_fits(symbol_type_map: &SymbolTypeMap, bytes: &[u8]) -> (r: bool)
    ensures
        r == map_in_bounds(descriptor_map_entries(*symbol_type_map), bytes@),
{
    let ghost te = descriptor_map_entries(*symbol_type_map);
    let n = descriptor_map_len(symbol_type_map);
    let mut i: usize = 0;
    while i < n
        invariant
            n == te.len(),
            te == descriptor_map_entries(*symbol_type_map),
            i <= n,
            forall|j: int| 0 <= j < i ==> read_in_bounds(#[trigger] te[j].1, bytes@),
        decreases n - i,
    {
        match descriptor_map_get_index(symbol_type_map, i) {
            Some((_path, descriptor)) => {
                if !descriptor.read_fits(bytes) {
                    assert(!read_in_bounds(te[i as int].1, bytes@));
                    return false;
                }
            },
            None => {},
        }
        i = i + 1;
    }
    true
}

/// Each entry of a type map, with the value its descriptor reads from `bytes`.
pub open spec fn decoded(s: Seq<(Seq<char>, DescriptorView)>, bytes: Seq<u8>) -> Seq<
    (Seq<char>, PrimitiveValueView),
> {
    s.map_values(|e: (Seq<char>, DescriptorView)| (e.0, value_of(e.1, bytes)))
}

/// Every descriptor of the map reads within `bytes`.
pub open spec fn map_in_bounds(s: Seq<(Seq<char>, DescriptorView)>, bytes: Seq<u8>) -> bool {
    forall|i: int| 0 <= i < s.len() ==> read_in_bounds(#[trigger] s[i].1, bytes)
}

/// Decoding a `SymbolMap` out of a symbol's bytes.
pub trait SymbolMapExt: Sized {
    spec fn entries(&self) -> Seq<(Seq<char>, PrimitiveValueView)>;

    /// One value per entry of the type map, inserted in the map's order.
    fn from_bytes(symbol_type_map: &SymbolTypeMap, bytes: &[u8]) -> (m: Self)
        requires
            map_in_bounds(descriptor_map_entries(*symbol_type_map), bytes@),
        ensures
            m.entries() == seq_insert_all(
                Seq::empty(),
                decoded(descriptor_map_entries(*symbol_type_map), bytes@),
            ),
    ;
}

impl SymbolMapExt for SymbolMap {
    open spec fn entries(&self) -> Seq<(Seq<char>, PrimitiveValueView)> {
        primitive_map_entries(*self)
    }

    fn from_bytes(symbol_type_map: &SymbolTypeMap, bytes: &[u8]) -> (m: Self) {
        let ghost te = descriptor_map_entries(*symbol_type_map);
        let ghost all = decoded(te, bytes@);
        let mut map = primitive_map_new();
        let n = descriptor_map_len(symbol_type_map);
        let mut i: usize = 0;
        assert(all.take(0) =~= Seq::<(Seq<char>, PrimitiveValueView)>::empty());
        while i < n
            invariant
                n == te.len(),
                te == descriptor_map_entries(*symbol_type_map),
                all == decoded(te, bytes@),
                map_in_bounds(te, bytes@),
                i <= n,
                primitive_map_entries(map) == seq_insert_all(Seq::empty(), all.take(i as int)),
            decreases n - i,
        {
            match descriptor_map_get_index(symbol_type_map, i) {
                Some((path, symbol_descriptor)) => {
                    let value = symbol_descriptor.read_from_bytes(bytes);
                    primitive_map_insert(&mut map, path.clone(), value);
                    assert(all.take(i + 1).drop_last() =~= all.take(i as int));
                },
                None => {},
            }
            i = i + 1;
        }
        assert(all.take(n as int) =~= all);
        map
    }
}

/// Decoding gives one value per path of the type map, in the same order:
/// a type map has no repeated path.
pub proof fn lemma_from_bytes_one_value_per_path(
    s: Seq<(Seq<char>, DescriptorView)>,
    bytes: Seq<u8>,
)
    requires
        keys_unique(s),
    ensures
        seq_insert_all(Seq::empty(), decoded(s, bytes)) == decoded(s, bytes),
        decoded(s, bytes).len() == s.len(),
        forall|i: int| 0 <= i < s.len() ==> (#[trigger] decoded(s, bytes)[i]).0 == s[i].0,
{
    let d = decoded(s, bytes);
    assert(Seq::<(Seq<char>, PrimitiveValueView)>::empty() + d =~= d);
    assert(keys_unique(d));
    lemma_insert_all_fresh(Seq::empty(), d);
}


/// The fields' maps, inserted in order, never repeat a path.
proof fn lemma_map_of_fields_unique(
    fs: Seq<(Seq<char>, (TypeTreeView, Option<u32>))>,
    n: int,
    offset: int,
    path: Seq<char>,
)
    ensures
        keys_unique(map_of_fields(fs, n, offset, path)),
    decreases n,
{
    if 0 < n <= fs.len() {
        lemma_map_of_fields_unique(fs, n - 1, offset, path);
        if let Some(o) = fs[n - 1].1.1 {
            lemma_insert_all_unique(
                map_of_fields(fs, n - 1, offset, path),
                map_of_tree(fs[n - 1].1.0, offset + o, dotted_path(path, fs[n - 1].0)),
            );
        }
    }
}

/// A type map never repeats a path.
pub proof fn lemma_map_of_tree_unique(t: TypeTreeView, offset: int, path: Seq<char>)
    ensures
        keys_unique(map_of_tree(t, offset, path)),
{
    if let TypeTreeView::Struct(fs, _) = t {
        if !is_timestruct(fs) {
            lemma_map_of_fields_unique(fs, fs.len() as int, offset, path);
        }
    }
}

/// Decoding bytes with the type map built from a type tree gives one value
/// per path of that map, in the map's order: inserting the decoded entries
/// changes nothing, and each entry keeps its path.
pub proof fn lemma_tree_map_one_value_per_path(
    t: TypeTreeView,
    offset: int,
    path: Seq<char>,
    bytes: Seq<u8>,
)
    ensures
        seq_insert_all(Seq::empty(), decoded(map_of_tree(t, offset, path), bytes)) == decoded(
            map_of_tree(t, offset, path),
            bytes,
        ),
        decoded(map_of_tree(t, offset, path), bytes).len() == map_of_tree(t, offset, path).len(),
        forall|i: int|
            0 <= i < map_of_tree(t, offset, path).len() ==> (#[trigger] decoded(
                map_of_tree(t, offset, path),
                bytes,
            )[i]).0 == map_of_tree(t, offset, path)[i].0,
{
    lemma_map_of_tree_unique(t, offset, path);
    lemma_from_bytes_one_value_per_path(map_of_tree(t, offset, path), bytes);
}

} // verus!
