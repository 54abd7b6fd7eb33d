//! Symbol and type information as uploaded from the PLC, and the type tree
//! built from it.
use crate::ordmap::{
    entries_view, find_key, insert_entry, keys_unique, lemma_insert_unique, lemma_key_index, seq_get,
    seq_insert, seq_insert_all,
};
use crate::strs::{lowercase, to_lowercase};
use crate::symbol::type_tree::{lemma_struct_view, tree_of_type_id, SymbolTypeTree, TypeTreeView};
use vstd::prelude::*;

verus! {

/// A symbol of the PLC: a named variable of some type.
#[derive(Debug, Clone)]
pub struct Symbol {
    /// Hierarchical name of the symbol.
    pub name: String,
    /// Index group of the symbol location.
    pub ix_group: u32,
    /// Index offset of the symbol location.
    pub ix_offset: u32,
    /// Type name of the symbol.
    pub typ: String,
    /// Total size of the symbol, in bytes.
    pub size: usize,
    /// Base type: the number of an ADS primitive type, or 65 for a type
    /// described in the type map.
    pub base_type: u32,
    /// Symbol flags.
    pub flags: u32,
}

/// A field of a structured type.
#[derive(Debug, Clone)]
pub struct Field {
    /// Name of the field.
    pub name: String,
    /// Type name of the field.
    pub typ: String,
    /// Offset of the field within its struct, `None` for a field that lives
    /// elsewhere.
    pub offset: Option<u32>,
    /// Size of the field, in bytes.
    pub size: usize,
    /// Base type of the field, as for a symbol.
    pub base_type: u32,
    /// Field flags.
    pub flags: u32,
}

/// A type the PLC describes in its type map.
#[derive(Debug, Clone)]
pub struct Type {
    /// Name of the type.
    pub name: String,
    /// Total size of the type, in bytes.
    pub size: usize,
    /// The fields, for a structured type; none for an array.
    pub fields: Vec<Field>,
    /// Base type of the type.
    pub base_type: u32,
    /// Type flags.
    pub flags: u32,
}

/// What a `Field` holds that the type tree uses.
pub struct FieldView {
    pub name: Seq<char>,
    pub typ: Seq<char>,
    pub offset: Option<u32>,
    pub size: usize,
    pub base_type: u32,
}

/// What a `Type` holds that the type tree uses.
pub struct TypeView {
    pub size: usize,
    pub fields: Seq<FieldView>,
}

impl View for Field {
    type V = FieldView;

    open spec fn view(&self) -> FieldView {
        FieldView {
            name: self.name@,
            typ: self.typ@,
            offset: self.offset,
            size: self.size,
            base_type: self.base_type,
        }
    }
}

impl View for Type {
    type V = TypeView;

    open spec fn view(&self) -> TypeView {
        TypeView { size: self.size, fields: self.fields@.map_values(|f: Field| f@) }
    }
}

/// Type names mapped to their descriptions, in insertion order; no name
/// occurs twice.
#[derive(Debug)]
pub struct TypeMap {
    entries: Vec<(String, Type)>,
}

impl View for TypeMap {
    type V = Seq<(String, Type)>;

    closed spec fn view(&self) -> Seq<(String, Type)> {
        self.entries@
    }
}

impl TypeMap {
    /// No type name occurs twice.
    #[verifier::type_invariant]
    pub closed spec fn names_distinct(self) -> bool {
        keys_unique(type_map_view(self.entries@))
    }

    /// An empty type map.
    pub fn new() -> (r: Self)
        ensures
            r@.len() == 0,
    {
        let r = TypeMap { entries: Vec::new() };
        assert(type_map_view(r.entries@) =~= Seq::<(Seq<char>, TypeView)>::empty());
        r
    }

    /// Maps `name` to `typ`: a name already present keeps its place and
    /// takes the new type, a new name goes last.
    pub fn insert(&mut self, name: String, typ: Type)
        ensures
            type_map_view(final(self)@) == seq_insert(type_map_view(old(self)@), name@, typ@),
    {
        proof {
            use_type_invariant(&*self);
        }
        let mut entries: Vec<(String, Type)> = Vec::new();
        assert(type_map_view(entries@) =~= Seq::<(Seq<char>, TypeView)>::empty());
        std::mem::swap(&mut entries, &mut self.entries);
        let ghost before = type_map_view(entries@);
        proof {
            lemma_insert_unique(before, name@, typ@);
        }
        insert_entry(&mut entries, name, typ);
        self.entries = entries;
    }

    /// The number of types.
    pub fn len(&self) -> (n: usize)
        ensures
            n == self@.len(),
    {
        self.entries.len()
    }

    /// The type called `name`, if there is one.
    pub fn get(&self, name: &str) -> (r: Option<&Type>)
        ensures
            match seq_get(type_map_view(self@), name@) {
                Some(t) => r matches Some(x) && x@ == t,
                None => r is None,
            },
    {
        match find_key(&self.entries, name) {
            Some(i) => {
                proof {
                    lemma_key_index(type_map_view(self.entries@), name@, i as int);
                }
                Some(&self.entries[i].1)
            },
            None => None,
        }
    }
}

/// Why no type tree could be built.
#[derive(Debug, Clone, PartialEq, Eq)]
pub enum SymbolTypeTreeError {
    /// The type map has no entry for the named type.
    MissingSymbolTypeInfo(String),
}

/// The type tree of a value with base type `base`, size `size` and type
/// name `typ`, looking structured types up in `tm`: `None` when it takes
/// more than `fuel` levels of structured types; else the tree, or the name
/// of a type missing from the map. A structured type with fields becomes a
/// struct of its fields' trees (a field whose tree cannot be built becomes
/// `Unknown` of the field's size), inserted in order; one without fields is
/// an array of bytes.
pub open spec fn type_tree_fuel(
    base: u32,
    size: usize,
    typ: Seq<char>,
    tm: Seq<(Seq<char>, TypeView)>,
    fuel: nat,
) -> Option<Result<TypeTreeView, Seq<char>>>
    decreases fuel, 1int, 0int,
{
    let tree = tree_of_type_id(base, size)@;
    if tree is Compound {
        match seq_get(tm, typ) {
            None => Some(Err(typ)),
            Some(t) => if t.fields.len() > 0 {
                if fuel == 0 {
                    None
                } else {
                    match field_trees(t.fields, tm, (fuel - 1) as nat, t.fields.len() as int) {
                        Some(fs) => Some(
                            Ok(TypeTreeView::Struct(seq_insert_all(Seq::empty(), fs), t.size)),
                        ),
                        None => None,
                    }
                }
            } else {
                Some(Ok(TypeTreeView::Array(Box::new(TypeTreeView::Usint), size)))
            },
        }
    } else {
        Some(Ok(tree))
    }
}

/// The entries for the first `n` fields, `None` if one of them takes more
/// than `fuel` levels.
pub open spec fn field_trees(
    fields: Seq<FieldView>,
    tm: Seq<(Seq<char>, TypeView)>,
    fuel: nat,
    n: int,
) -> Option<Seq<(Seq<char>, (TypeTreeView, Option<u32>))>>
    decreases fuel, 2int, n,
{
    if n <= 0 || n > fields.len() {
        Some(Seq::empty())
    } else {
        let f = fields[n - 1];
        match field_trees(fields, tm, fuel, n - 1) {
            None => None,
            Some(prev) => match type_tree_fuel(f.base_type, f.size, f.typ, tm, fuel) {
                None => None,
                Some(Ok(t)) => Some(prev.push((f.name, (t, f.offset)))),
                Some(Err(_)) => Some(prev.push((f.name, (TypeTreeView::Unknown(f.size), f.offset)))),
            },
        }
    }
}

/// The type map, viewed.
pub open spec fn type_map_view(tm: Seq<(String, Type)>) -> Seq<(Seq<char>, TypeView)> {
    entries_view(tm)
}

/// The type tree of a symbol: defined when its structured types do not nest
/// deeper than there are types in the map, as in every map without cycles.
pub open spec fn symbol_type_tree(s: Symbol, tm: Seq<(String, Type)>) -> Option<
    Result<TypeTreeView, Seq<char>>,
> {
    type_tree_fuel(s.base_type, s.size, s.typ@, type_map_view(tm), (tm.len() + 1) as nat)
}

proof fn lemma_field_trees_prefix(
    fields: Seq<FieldView>,
    tm: Seq<(Seq<char>, TypeView)>,
    fuel: nat,
    n: int,
    k: int,
)
    requires
        0 <= k <= n <= fields.len(),
        field_trees(fields, tm, fuel, n) is Some,
    ensures
        field_trees(fields, tm, fuel, k) is Some,
        k > 0 ==> type_tree_fuel(fields[k - 1].base_type, fields[k - 1].size, fields[k - 1].typ, tm, fuel) is Some,
    decreases n - k,
{
    if k < n {
        lemma_field_trees_prefix(fields, tm, fuel, n - 1, k);
    }
}

fn tree_from_type_or_field(
    base_type: u32,
    size: usize,
    typ_name: &str,
    type_map: &TypeMap,
    Ghost(fuel): Ghost<nat>,
) -> (r: Result<SymbolTypeTree, SymbolTypeTreeError>)
    requires
        type_tree_fuel(base_type, size, typ_name@, type_map_view(type_map@), fuel) is Some,
    ensures
        match type_tree_fuel(base_type, size, typ_name@, type_map_view(type_map@), fuel) {
            Some(Ok(t)) => r matches Ok(tree) && tree@ == t,
            Some(Err(name)) => r matches Err(SymbolTypeTreeError::MissingSymbolTypeInfo(n)) && n@ == name,
            None => false,
        },
    decreases fuel,
{
    let ghost tm = type_map_view(type_map@);
    let tree = SymbolTypeTree::from_type_id(base_type, size);
    match tree {
        SymbolTypeTree::Compound(_struct_size) => {
            let i = match find_key(&type_map.entries, typ_name) {
                Some(i) => i,
                None => {
                    return Err(SymbolTypeTreeError::MissingSymbolTypeInfo(typ_name.to_owned()));
                },
            };
            proof {
                lemma_key_index(tm, typ_name@, i as int);
            }
            let tree_type = &type_map.entries[i].1;
            assert(tm[i as int].1 == tree_type@);
            let ghost fields = tree_type@.fields;
            if tree_type.fields.len() > 0 {
                assert(fuel > 0);
                let ghost sub = (fuel - 1) as nat;
                let mut struct_map: Vec<(String, (SymbolTypeTree, Option<u32>))> = Vec::new();
                let mut k: usize = 0;
                while k < tree_type.fields.len()
                    invariant
                        fuel > 0,
                        sub == fuel - 1,
                        tm == type_map_view(type_map@),
                        fields == tree_type@.fields,
                        fields.len() == tree_type.fields@.len(),
                        field_trees(fields, tm, sub, fields.len() as int) is Some,
                        k <= fields.len(),
                        field_trees(fields, tm, sub, k as int) is Some,
                        entries_view(struct_map@) == seq_insert_all(
                            Seq::empty(),
                            field_trees(fields, tm, sub, k as int)->0,
                        ),
                    decreases fields.len() - k,
                {
                    proof {
                        lemma_field_trees_prefix(fields, tm, sub, fields.len() as int, k + 1);
                    }
                    let field = &tree_type.fields[k];
                    assert(fields[k as int] == field@);
                    let child = match tree_from_type_or_field(
                        field.base_type,
                        field.size,
                        field.typ.as_str(),
                        type_map,
                        Ghost(sub),
                    ) {
                        Ok(t) => t,
                        Err(_) => SymbolTypeTree::Unknown(field.size),
                    };
                    insert_entry(&mut struct_map, field.name.clone(), (child, field.offset));
                    let ghost prev = field_trees(fields, tm, sub, k as int)->0;
                    let ghost next = field_trees(fields, tm, sub, k + 1)->0;
                    assert(next.drop_last() =~= prev);
                    assert(next.last() == (field.name@, (child@, field.offset)));
                    k = k + 1;
                }
                let t = SymbolTypeTree::Struct(struct_map, tree_type.size);
                proof {
                    lemma_struct_view(struct_map, tree_type.size);
                }
                assert(tree@ is Compound);
                assert(seq_get(tm, typ_name@) == Some(tree_type@));
                Ok(t)
            } else {
                let t = SymbolTypeTree::Array(Box::new(SymbolTypeTree::Usint), size);
                assert(SymbolTypeTree::Usint@ == TypeTreeView::Usint);
                assert(t@ == TypeTreeView::Array(Box::new(TypeTreeView::Usint), size));
                assert(fields.len() == 0);
                Ok(t)
            }
        },
        _ => {
            assert(!(tree@ is Compound));
            Ok(tree)
        },
    }
}

impl SymbolTypeTree {
    /// The type tree of a symbol, its structured types looked up in
    /// `type_map`.
    pub fn from_symbol(symbol: &Symbol, type_map: &TypeMap) -> (r: Result<SymbolTypeTree, SymbolTypeTreeError>)
        requires
            symbol_type_tree(*symbol, type_map@) is Some,
        ensures
            match symbol_type_tree(*symbol, type_map@) {
                Some(Ok(t)) => r matches Ok(tree) && tree@ == t,
                Some(Err(name)) => r matches Err(SymbolTypeTreeError::MissingSymbolTypeInfo(n)) && n@
                    == name,
                None => false,
            },
    {
        tree_from_type_or_field(
            symbol.base_type,
            symbol.size,
            symbol.typ.as_str(),
            type_map,
            Ghost((type_map@.len() + 1) as nat),
        )
    }
}

/// The position of the last symbol whose name equals `name`, letter case
/// aside.
pub open spec fn last_match(symbols: Seq<Symbol>, name: Seq<char>, n: int) -> Option<int>
    decreases n,
{
    if n <= 0 {
        None
    } else if lowercase(symbols[n - 1].name@) == lowercase(name) {
        Some(n - 1)
    } else {
        last_match(symbols, name, n - 1)
    }
}

/// The type tree of the symbol called `name`: `Missing` when no symbol has
/// that name (letter case aside; the last one counts when several do), else
/// its tree, or `Unknown` of its size when the tree cannot be built.
pub open spec fn named_type_tree(symbols: Seq<Symbol>, tm: Seq<(String, Type)>, name: Seq<char>) -> TypeTreeView {
    match last_match(symbols, name, symbols.len() as int) {
        None => TypeTreeView::Missing,
        Some(i) => match symbol_type_tree(symbols[i], tm) {
            Some(Ok(t)) => t,
            _ => TypeTreeView::Unknown(symbols[i].size),
        },
    }
}

/// Picks the symbol called `name` among `symbols` and builds its type tree.
pub fn dynamic_type_tree(symbols: Vec<Symbol>, type_map: &TypeMap, name: &str) -> (r: SymbolTypeTree)
    requires
        last_match(symbols@, name@, symbols@.len() as int) matches Some(i) ==> symbol_type_tree(
            symbols@[i],
            type_map@,
        ) is Some,
    ensures
        r@ == named_type_tree(symbols@, type_map@, name@),
{
    let wanted = to_lowercase(name);
    let mut symbol: Option<usize> = None;
    let mut k: usize = 0;
    while k < symbols.len()
        invariant
            k <= symbols@.len(),
            wanted@ == lowercase(name@),
            match symbol {
                Some(i) => i < k && last_match(symbols@, name@, k as int) == Some(i as int),
                None => last_match(symbols@, name@, k as int) is None,
            },
        decreases symbols@.len() - k,
    {
        let lower = to_lowercase(symbols[k].name.as_str());
        if lower == wanted {
            symbol = Some(k);
        }
        k = k + 1;
    }
    let i = match symbol {
        Some(i) => i,
        None => {
            return SymbolTypeTree::Missing;
        },
    };
    match SymbolTypeTree::from_symbol(&symbols[i], type_map) {
        Ok(t) => t,
        Err(_) => SymbolTypeTree::Unknown(symbols[i].size),
    }
}

} // verus!
