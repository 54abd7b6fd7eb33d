//! The dynamic type tree of a PLC symbol: its layout as the PLC reports it.
use crate::ordmap::{entries_view, find_key, lemma_key_index, seq_get};
use crate::strs::{split, split_chars, string_from_chars};
use vstd::prelude::*;

verus! {

/// The type of a symbol, as a tree. A `Struct` lists its fields in order,
/// each with its type and its byte offset within the struct (`None` when the
/// field lives elsewhere); field names are distinct.
#[derive(Debug, PartialEq)]
pub enum SymbolTypeTree {
    Struct(Vec<(String, (SymbolTypeTree, Option<u32>))>, usize),
    /// Arrays are not fully supported: the element type is not kept.
    Array(Box<SymbolTypeTree>, usize),
    Void(usize),
    Int,
    Dint,
    Real,
    Lreal,
    Sint,
    Usint,
    Uint,
    Udint,
    Lint,
    Ulint,
    String(usize),
    Wstring(usize),
    Real80,
    Bool,
    Compound(usize),
    Unknown(usize),
    Missing,
}

/// The mathematical value of a `SymbolTypeTree`: names as character sequences.
pub enum TypeTreeView {
    Struct(Seq<(Seq<char>, (TypeTreeView, Option<u32>))>, usize),
    Array(Box<TypeTreeView>, usize),
    Void(usize),
    Int,
    Dint,
    Real,
    Lreal,
    Sint,
    Usint,
    Uint,
    Udint,
    Lint,
    Ulint,
    String(usize),
    Wstring(usize),
    Real80,
    Bool,
    Compound(usize),
    Unknown(usize),
    Missing,
}

pub open spec fn type_tree_view(t: SymbolTypeTree) -> TypeTreeView
    decreases t,
{
    match t {
        SymbolTypeTree::Struct(fs, size) => TypeTreeView::Struct(
            Seq::new(
                fs@.len(),
                |i: int|
                    if 0 <= i < fs@.len() {
                        (fs@[i].0@, (type_tree_view(fs@[i].1.0), fs@[i].1.1))
                    } else {
                        (Seq::empty(), (TypeTreeView::Missing, None))
                    },
            ),
            size,
        ),
        SymbolTypeTree::Array(b, size) => TypeTreeView::Array(Box::new(type_tree_view(*b)), size),
        SymbolTypeTree::Void(size) => TypeTreeView::Void(size),
        SymbolTypeTree::Int => TypeTreeView::Int,
        SymbolTypeTree::Dint => TypeTreeView::Dint,
        SymbolTypeTree::Real => TypeTreeView::Real,
        SymbolTypeTree::Lreal => TypeTreeView::Lreal,
        SymbolTypeTree::Sint => TypeTreeView::Sint,
        SymbolTypeTree::Usint => TypeTreeView::Usint,
        SymbolTypeTree::Uint => TypeTreeView::Uint,
        SymbolTypeTree::Udint => TypeTreeView::Udint,
        SymbolTypeTree::Lint => TypeTreeView::Lint,
        SymbolTypeTree::Ulint => TypeTreeView::Ulint,
        SymbolTypeTree::String(size) => TypeTreeView::String(size),
        SymbolTypeTree::Wstring(size) => TypeTreeView::Wstring(size),
        SymbolTypeTree::Real80 => TypeTreeView::Real80,
        SymbolTypeTree::Bool => TypeTreeView::Bool,
        SymbolTypeTree::Compound(size) => TypeTreeView::Compound(size),
        SymbolTypeTree::Unknown(size) => TypeTreeView::Unknown(size),
        SymbolTypeTree::Missing => TypeTreeView::Missing,
    }
}

impl View for SymbolTypeTree {
    type V = TypeTreeView;

    open spec fn view(&self) -> TypeTreeView {
        type_tree_view(*self)
    }
}

/// The fields of a struct tree, viewed.
pub proof fn lemma_struct_view(fs: Vec<(String, (SymbolTypeTree, Option<u32>))>, size: usize)
    ensures
        SymbolTypeTree::Struct(fs, size)@ == TypeTreeView::Struct(entries_view(fs@), size),
{
    let v = SymbolTypeTree::Struct(fs, size)@;
    assert(v->Struct_0 =~= entries_view(fs@));
}

/// The size in bytes of a value of the type.
pub open spec fn type_size(t: TypeTreeView) -> usize {
    match t {
        TypeTreeView::Struct(_, size) => size,
        TypeTreeView::Array(_, size) => size,
        TypeTreeView::Void(size) => size,
        TypeTreeView::Int => 2,
        TypeTreeView::Dint => 4,
        TypeTreeView::Real => 4,
        TypeTreeView::Lreal => 8,
        TypeTreeView::Sint => 1,
        TypeTreeView::Usint => 1,
        TypeTreeView::Uint => 2,
        TypeTreeView::Udint => 4,
        TypeTreeView::Lint => 8,
        TypeTreeView::Ulint => 8,
        TypeTreeView::String(size) => size,
        TypeTreeView::Wstring(size) => size,
        TypeTreeView::Real80 => 10,
        TypeTreeView::Bool => 1,
        TypeTreeView::Compound(size) => size,
        TypeTreeView::Unknown(size) => size,
        TypeTreeView::Missing => 0,
    }
}

/// The subtree at the path `tokens` (one field name per level); `Missing`
/// when some level is not a struct or has no such field.
pub open spec fn type_child(t: TypeTreeView, tokens: Seq<Seq<char>>) -> TypeTreeView
    decreases tokens.len(),
{
    if tokens.len() == 0 {
        t
    } else {
        match t {
            TypeTreeView::Struct(fs, _) => match seq_get(fs, tokens[0]) {
                Some(child) => type_child(child.0, tokens.drop_first()),
                None => TypeTreeView::Missing,
            },
            _ => TypeTreeView::Missing,
        }
    }
}

/// The tree for an ADS base type number, as the PLC numbers them.
pub open spec fn tree_of_type_id(type_id: u32, size: usize) -> SymbolTypeTree {
    if type_id == 0 {
        SymbolTypeTree::Void(size)
    } else if type_id == 2 {
        SymbolTypeTree::Int
    } else if type_id == 3 {
        SymbolTypeTree::Dint
    } else if type_id == 4 {
        SymbolTypeTree::Real
    } else if type_id == 5 {
        SymbolTypeTree::Lreal
    } else if type_id == 16 {
        SymbolTypeTree::Sint
    } else if type_id == 17 {
        SymbolTypeTree::Usint
    } else if type_id == 18 {
        SymbolTypeTree::Uint
    } else if type_id == 19 {
        SymbolTypeTree::Udint
    } else if type_id == 20 {
        SymbolTypeTree::Lint
    } else if type_id == 30 {
        SymbolTypeTree::String(size)
    } else if type_id == 31 {
        SymbolTypeTree::Wstring(size)
    } else if type_id == 32 {
        SymbolTypeTree::Real80
    } else if type_id == 33 {
        SymbolTypeTree::Bool
    } else if type_id == 65 {
        SymbolTypeTree::Compound(size)
    } else {
        SymbolTypeTree::Unknown(size)
    }
}

impl SymbolTypeTree {
    /// The size in bytes of a value of this type.
    pub fn get_size(&self) -> (n: usize)
        ensures
            n == type_size(self@),
    {
        match self {
            SymbolTypeTree::Struct(_index_map, size) => *size,
            SymbolTypeTree::Array(_symbol_type_tree, size) => *size,
            SymbolTypeTree::Void(size) => *size,
            SymbolTypeTree::Int => 2,
            SymbolTypeTree::Dint => 4,
            SymbolTypeTree::Real => 4,
            SymbolTypeTree::Lreal => 8,
            SymbolTypeTree::Sint => 1,
            SymbolTypeTree::Usint => 1,
            SymbolTypeTree::Uint => 2,
            SymbolTypeTree::Udint => 4,
            SymbolTypeTree::Lint => 8,
            SymbolTypeTree::Ulint => 8,
            SymbolTypeTree::String(size) => *size,
            SymbolTypeTree::Wstring(size) => *size,
            SymbolTypeTree::Real80 => 10,
            SymbolTypeTree::Bool => 1,
            SymbolTypeTree::Compound(size) => *size,
            SymbolTypeTree::Unknown(size) => *size,
            SymbolTypeTree::Missing => 0,
        }
    }

    /// The tree for an ADS base type number; unknown numbers give `Unknown`.
    pub fn from_type_id(type_id: u32, size: usize) -> (t: SymbolTypeTree)
        ensures
            t == tree_of_type_id(type_id, size),
    {
        match type_id {
            0 => SymbolTypeTree::Void(size),
            2 => SymbolTypeTree::Int,
            3 => SymbolTypeTree::Dint,
            4 => SymbolTypeTree::Real,
            5 => SymbolTypeTree::Lreal,
            16 => SymbolTypeTree::Sint,
            17 => SymbolTypeTree::Usint,
            18 => SymbolTypeTree::Uint,
            19 => SymbolTypeTree::Udint,
            20 => SymbolTypeTree::Lint,
            30 => SymbolTypeTree::String(size),
            31 => SymbolTypeTree::Wstring(size),
            32 => SymbolTypeTree::Real80,
            33 => SymbolTypeTree::Bool,
            65 => SymbolTypeTree::Compound(size),
            _ => SymbolTypeTree::Unknown(size),
        }
    }

    /// The subtree at a period-separated path of field names below this
    /// tree; `Missing` when the path leaves the tree.
    pub fn get_child(&self, symbol_path: &str) -> (r: &SymbolTypeTree)
        ensures
            r@ == type_child(self@, split(symbol_path@, '.')),
    {
        let tokens = split_chars(symbol_path, '.');
        let ghost toks = split(symbol_path@, '.');
        let mut current = self;
        let mut k: usize = 0;
        assert(toks.skip(0) =~= toks);
        while k < tokens.len()
            invariant
                k <= tokens@.len(),
                toks == split(symbol_path@, '.'),
                tokens@.len() == toks.len(),
                forall|i: int| 0 <= i < tokens@.len() ==> #[trigger] tokens@[i]@ == toks[i],
                type_child(self@, toks) == type_child(current@, toks.skip(k as int)),
            decreases tokens@.len() - k,
        {
            let token = string_from_chars(tokens[k].as_slice());
            assert(toks.skip(k as int).drop_first() =~= toks.skip(k + 1));
            assert(toks.skip(k as int)[0] == toks[k as int]);
            assert(toks.skip(k as int).len() > 0);
            match current {
                SymbolTypeTree::Struct(children, size) => {
                    proof {
                        lemma_struct_view(*children, *size);
                    }
                    match find_key(children, token.as_str()) {
                        Some(i) => {
                            proof {
                                lemma_key_index(entries_view(children@), token@, i as int);
                            }
                            current = &children[i].1.0;
                        },
                        None => {
                            assert(type_child(current@, toks.skip(k as int)) == TypeTreeView::Missing);
                            assert(type_tree_view(SymbolTypeTree::Missing) == TypeTreeView::Missing);
                            return &SymbolTypeTree::Missing;
                        },
                    }
                },
                _ => {
                    assert(current@ !is Struct);
                    assert(type_child(current@, toks.skip(k as int)) == TypeTreeView::Missing);
                    assert(type_tree_view(SymbolTypeTree::Missing) == TypeTreeView::Missing);
                    return &SymbolTypeTree::Missing;
                },
            }
            k = k + 1;
        }
        assert(toks.skip(k as int) =~= Seq::<Seq<char>>::empty());
        current
    }
}


/// Following a path and then another is following the two one after the
/// other.
pub proof fn lemma_type_child_append(t: TypeTreeView, xs: Seq<Seq<char>>, ys: Seq<Seq<char>>)
    ensures
        type_child(t, xs + ys) == type_child(type_child(t, xs), ys),
    decreases xs.len(),
{
    if xs.len() == 0 {
        assert(xs + ys =~= ys);
    } else {
        assert((xs + ys).drop_first() =~= xs.drop_first() + ys);
        assert((xs + ys)[0] == xs[0]);
        match t {
            TypeTreeView::Struct(fs, _) => match seq_get(fs, xs[0]) {
                Some(child) => lemma_type_child_append(child.0, xs.drop_first(), ys),
                None => lemma_type_child_missing(ys),
            },
            _ => lemma_type_child_missing(ys),
        }
    }
}

proof fn lemma_type_child_missing(ys: Seq<Seq<char>>)
    ensures
        type_child(TypeTreeView::Missing, ys) == TypeTreeView::Missing,
{
}

/// The child at the path `p.q` is the child at `q` of the child at `p`.
pub proof fn lemma_get_child_join(t: TypeTreeView, p: Seq<char>, q: Seq<char>)
    ensures
        type_child(t, split(p + seq!['.'] + q, '.')) == type_child(
            type_child(t, split(p, '.')),
            split(q, '.'),
        ),
{
    crate::strs::lemma_split_join(p, '.', q);
    lemma_type_child_append(t, split(p, '.'), split(q, '.'));
}

impl From<(u32, usize)> for SymbolTypeTree {
    fn from(pair: (u32, usize)) -> (t: Self) {
        SymbolTypeTree::from_type_id(pair.0, pair.1)
    }
}

impl vstd::std_specs::convert::FromSpecImpl<(u32, usize)> for SymbolTypeTree {
    open spec fn obeys_from_spec() -> bool {
        true
    }

    open spec fn from_spec(pair: (u32, usize)) -> Self {
        tree_of_type_id(pair.0, pair.1)
    }
}

} // verus!
