//! The flattened map and the tree of a symbol's data agree: every value in
//! the map is the leaf of the tree at the same place.
use crate::ordmap::{
    has_key, is_first_key, key_index, keys_unique, lemma_insert_all_fresh, lemma_key_index,
    lemma_key_index_found, seq_get, seq_insert, seq_insert_all,
};
use crate::strs::child_path;
use crate::symbol::map::{
    decoded, is_timestruct, leaf_type, map_of_fields, map_of_tree, read_in_bounds,
    timestruct_keys, timestruct_offsets, tree_map_ok, value_of, word_at,
    DescriptorView, FloatBits, PrimitiveTypeView, PrimitiveValueView,
};
use crate::symbol::tree::{fields_of, timestamp_of, tree_of, uint_field, TreeView};
use crate::symbol::type_tree::TypeTreeView;
use vstd::prelude::*;

verus! {

/// The flat value a decoded tree node stands for: numbers widened to 64
/// bits, floats by their bits, an array by its raw bytes, a struct by the
/// timestamp it holds; anything else is malformed.
pub open spec fn node_value(node: TreeView) -> PrimitiveValueView {
    match node {
        TreeView::Int(v) => PrimitiveValueView::Int(v as i64),
        TreeView::Dint(v) => PrimitiveValueView::Int(v as i64),
        TreeView::Sint(v) => PrimitiveValueView::Int(v as i64),
        TreeView::Lint(v) => PrimitiveValueView::Int(v),
        TreeView::Usint(v) => PrimitiveValueView::Uint(v as u64),
        TreeView::Uint(v) => PrimitiveValueView::Uint(v as u64),
        TreeView::Udint(v) => PrimitiveValueView::Uint(v as u64),
        TreeView::Ulint(v) => PrimitiveValueView::Uint(v),
        TreeView::Real(b) => PrimitiveValueView::Float(FloatBits::F32(b)),
        TreeView::Lreal(b) => PrimitiveValueView::Float(FloatBits::F64(b)),
        TreeView::Real80(b) => PrimitiveValueView::Float(FloatBits::F64(b)),
        TreeView::String(s) => PrimitiveValueView::String(s),
        TreeView::Bool(b) => PrimitiveValueView::Bool(b),
        TreeView::Void(b) => PrimitiveValueView::Void(b),
        TreeView::Array(items) => if items.len() == 1 && items[0] is Void {
            PrimitiveValueView::Void(items[0]->Void_0)
        } else {
            PrimitiveValueView::Malformed
        },
        TreeView::Struct(_) => match timestamp_of(node) {
            Some(p) => PrimitiveValueView::Timestamp(p),
            None => PrimitiveValueView::Malformed,
        },
        _ => PrimitiveValueView::Malformed,
    }
}

/// The subtree of a struct node for the field called `name`.
pub open spec fn child_node(node: TreeView, name: Seq<char>) -> TreeView {
    match node {
        TreeView::Struct(nfs) => match seq_get(nfs, name) {
            Some(v) => v,
            None => TreeView::Missing,
        },
        _ => TreeView::Missing,
    }
}

/// The flat entries of a decoded tree `node` of type `t` below `path`, built
/// as the type map is: one entry per primitive leaf and per TIMESTRUCT,
/// each holding the node's flat value.
pub open spec fn entries_of(t: TypeTreeView, node: TreeView, path: Seq<char>) -> Seq<
    (Seq<char>, PrimitiveValueView),
>
    decreases t, 0int,
{
    match t {
        TypeTreeView::Struct(fs, _) => {
            if is_timestruct(fs) {
                if timestruct_offsets(fs) is Some {
                    seq![(path, node_value(node))]
                } else {
                    Seq::empty()
                }
            } else {
                entries_of_fields(fs, fs.len() as int, node, path)
            }
        },
        _ => if leaf_type(t) is Some {
            seq![(path, node_value(node))]
        } else {
            Seq::empty()
        },
    }
}

/// The entries of the first `n` fields of a struct node, inserted in order.
pub open spec fn entries_of_fields(
    fs: Seq<(Seq<char>, (TypeTreeView, Option<u32>))>,
    n: int,
    node: TreeView,
    path: Seq<char>,
) -> Seq<(Seq<char>, PrimitiveValueView)>
    decreases fs, n,
{
    if n <= 0 || n > fs.len() {
        Seq::empty()
    } else {
        let prev = entries_of_fields(fs, n - 1, node, path);
        match fs[n - 1].1.1 {
            Some(_) => seq_insert_all(
                prev,
                entries_of(
                    fs[n - 1].1.0,
                    child_node(node, fs[n - 1].0),
                    child_path(path, fs[n - 1].0),
                ),
            ),
            None => prev,
        }
    }
}

/// Field names are distinct within every struct of the type.
pub open spec fn names_unique(t: TypeTreeView) -> bool
    decreases t, 0int,
{
    match t {
        TypeTreeView::Struct(fs, _) => keys_unique(fs) && forall|i: int|
            0 <= i < fs.len() ==> names_unique(#[trigger] fs[i].1.0),
        _ => true,
    }
}

/// No part of the type is of an unknown kind.
pub open spec fn no_unknown(t: TypeTreeView) -> bool
    decreases t, 0int,
{
    match t {
        TypeTreeView::Struct(fs, _) => forall|i: int|
            0 <= i < fs.len() ==> no_unknown(#[trigger] fs[i].1.0),
        TypeTreeView::Unknown(_) => false,
        _ => true,
    }
}

/// Every leaf of the type placed at `off` reads within `data`.
pub open spec fn leaves_readable(t: TypeTreeView, off: int, data: Seq<u8>) -> bool
    decreases t, 0int,
{
    match t {
        TypeTreeView::Struct(fs, _) => {
            if is_timestruct(fs) {
                match timestruct_offsets(fs) {
                    Some(o) => read_in_bounds((PrimitiveTypeView::TimeStruct(o), off as u32), data),
                    None => true,
                }
            } else {
                forall|i: int|
                    0 <= i < fs.len() ==> (#[trigger] fs[i].1.1 matches Some(o) ==> leaves_readable(
                        fs[i].1.0,
                        off + o,
                        data,
                    ))
            }
        },
        _ => match leaf_type(t) {
            Some(k) => read_in_bounds((k, off as u32), data),
            None => true,
        },
    }
}

// ----- Decoding commutes with inserting. -----
proof fn lemma_decoded_keys(s: Seq<(Seq<char>, DescriptorView)>, bytes: Seq<u8>, k: Seq<char>)
    ensures
        decoded(s, bytes).len() == s.len(),
        has_key(decoded(s, bytes), k) == has_key(s, k),
        has_key(s, k) ==> key_index(decoded(s, bytes), k) == key_index(s, k),
{
    let d = decoded(s, bytes);
    assert forall|i: int| 0 <= i < s.len() implies #[trigger] d[i].0 == s[i].0 by {}
    if has_key(s, k) {
        let i = choose|i: int| 0 <= i < s.len() && #[trigger] s[i].0 == k;
        assert(d[i].0 == k);
        lemma_key_index_found(s, k);
        let j = key_index(s, k);
        assert(is_first_key(d, k, j)) by {
            assert forall|m: int| 0 <= m < j implies #[trigger] d[m].0 != k by {
                assert(s[m].0 != k);
            }
        }
        lemma_key_index(d, k, j);
    }
    if has_key(d, k) {
        let i = choose|i: int| 0 <= i < d.len() && #[trigger] d[i].0 == k;
        assert(s[i].0 == k);
    }
}

proof fn lemma_decoded_insert(s: Seq<(Seq<char>, DescriptorView)>, k: Seq<char>, v: DescriptorView, bytes: Seq<u8>)
    ensures
        decoded(seq_insert(s, k, v), bytes) == seq_insert(decoded(s, bytes), k, value_of(v, bytes)),
{
    lemma_decoded_keys(s, bytes, k);
    let lhs = decoded(seq_insert(s, k, v), bytes);
    let rhs = seq_insert(decoded(s, bytes), k, value_of(v, bytes));
    if has_key(s, k) {
        lemma_key_index_found(s, k);
    }
    assert(lhs =~= rhs);
}

proof fn lemma_decoded_insert_all(
    s: Seq<(Seq<char>, DescriptorView)>,
    t: Seq<(Seq<char>, DescriptorView)>,
    bytes: Seq<u8>,
)
    ensures
        decoded(seq_insert_all(s, t), bytes) == seq_insert_all(decoded(s, bytes), decoded(t, bytes)),
    decreases t.len(),
{
    if t.len() > 0 {
        lemma_decoded_insert_all(s, t.drop_last(), bytes);
        lemma_decoded_insert(seq_insert_all(s, t.drop_last()), t.last().0, t.last().1, bytes);
        assert(decoded(t, bytes).drop_last() =~= decoded(t.drop_last(), bytes));
    } else {
        assert(decoded(t, bytes) =~= Seq::<(Seq<char>, PrimitiveValueView)>::empty());
    }
}

// ----- Leaves. -----
proof fn lemma_leaf_agrees(t: TypeTreeView, off: int, data: Seq<u8>)
    requires
        !(t is Struct),
        no_unknown(t),
        0 <= off <= u32::MAX,
        leaf_type(t) matches Some(k) && read_in_bounds((k, off as u32), data),
    ensures
        value_of((leaf_type(t)->0, off as u32), data) == node_value(tree_of(data, t, off)),
{
    let acc = data.skip(off);
    assert((off as u32) as int == off);
    match t {
        TypeTreeView::Int => {
            if acc.len() >= 2 {
                let v = crate::le::signed(crate::le::u16_le(acc), 32768);
                assert(-32768 <= v < 32768);
            }
        },
        TypeTreeView::Dint => {
            if acc.len() >= 4 {
                let v = crate::le::signed(crate::le::u32_le(acc), 0x8000_0000);
                assert(-0x8000_0000 <= v < 0x8000_0000);
            }
        },
        TypeTreeView::Sint => {
            if acc.len() >= 1 {
                let v = crate::le::signed(acc[0] as int, 128);
                assert(-128 <= v < 128);
            }
        },
        TypeTreeView::Array(_, n) => {
            let node = tree_of(data, t, off);
            assert(node == TreeView::Array(seq![TreeView::Void(acc.take(n as int))]));
        },
        _ => {},
    }
}

// ----- TIMESTRUCTs. -----
proof fn lemma_timestruct_fields(
    fs: Seq<(Seq<char>, (TypeTreeView, Option<u32>))>,
    data: Seq<u8>,
    off: int,
)
    requires
        is_timestruct(fs),
        0 <= off <= data.len(),
    ensures
        seq_insert_all(Seq::empty(), fields_of(data, fs, off)) == fields_of(data, fs, off),
        keys_unique(fields_of(data, fs, off)),
{
    crate::symbol::map::lemma_timestruct_keys_distinct();
    let fo = fields_of(data, fs, off);
    assert forall|i: int, j: int| 0 <= i < fo.len() && 0 <= j < fo.len() && i != j implies fo[i].0
        != fo[j].0 by {
        assert(fo[i].0 == fs[i].0);
        assert(fo[j].0 == fs[j].0);
        assert(fs[i].0 == timestruct_keys()[i]);
        assert(fs[j].0 == timestruct_keys()[j]);
    }
    assert(Seq::<(Seq<char>, TreeView)>::empty() + fo =~= fo);
    lemma_insert_all_fresh(Seq::empty(), fo);
}

proof fn lemma_word_field(
    fs: Seq<(Seq<char>, (TypeTreeView, Option<u32>))>,
    data: Seq<u8>,
    off: int,
    i: int,
)
    requires
        is_timestruct(fs),
        timestruct_offsets(fs) is Some,
        0 <= i < 8,
        0 <= off <= data.len(),
    ensures
        uint_field(fields_of(data, fs, off), timestruct_keys()[i]) == word_at(
            data.skip(off),
            timestruct_offsets(fs)->0[i] as int,
        ),
{
    lemma_timestruct_fields(fs, data, off);
    let fo = fields_of(data, fs, off);
    let k = timestruct_keys()[i];
    assert(fs[i].0 == k);
    assert(fo[i].0 == k);
    assert(is_first_key(fo, k, i)) by {
        assert forall|j: int| 0 <= j < i implies #[trigger] fo[j].0 != k by {
            assert(fo[j].0 == fs[j].0);
        }
    }
    lemma_key_index(fo, k, i);
    assert(fs[i].1.1 is Some && fs[i].1.0 is Uint);
    let o = fs[i].1.1->0;
    assert(timestruct_offsets(fs)->0[i] == o as usize);
    let acc = data.skip(off);
    if off + o <= data.len() {
        assert(acc.skip(o as int) =~= data.skip(off + o));
    }
}

proof fn lemma_timestruct_agrees(t: TypeTreeView, off: int, data: Seq<u8>)
    requires
        t is Struct,
        is_timestruct(t->Struct_0),
        timestruct_offsets(t->Struct_0) is Some,
        0 <= off <= u32::MAX,
        read_in_bounds(
            (PrimitiveTypeView::TimeStruct(timestruct_offsets(t->Struct_0)->0), off as u32),
            data,
        ),
    ensures
        value_of(
            (PrimitiveTypeView::TimeStruct(timestruct_offsets(t->Struct_0)->0), off as u32),
            data,
        ) == node_value(tree_of(data, t, off)),
{
    let fs = t->Struct_0;
    let o = timestruct_offsets(fs)->0;
    let acc = data.skip(off);
    assert((off as u32) as int == off);
    assert(off <= data.len());
    lemma_timestruct_fields(fs, data, off);
    let fo = fields_of(data, fs, off);
    let node = tree_of(data, t, off);
    assert(node == TreeView::Struct(fo));
    lemma_word_field(fs, data, off, 0);
    lemma_word_field(fs, data, off, 1);
    lemma_word_field(fs, data, off, 3);
    lemma_word_field(fs, data, off, 4);
    lemma_word_field(fs, data, off, 5);
    lemma_word_field(fs, data, off, 6);
    lemma_word_field(fs, data, off, 7);
    let words = seq![o[0], o[1], o[3], o[4], o[5], o[6], o[7]];
    assert(uint_field(fo, "wYear"@) == word_at(acc, words[0] as int));
    assert(uint_field(fo, "wMonth"@) == word_at(acc, words[1] as int));
    assert(uint_field(fo, "wDay"@) == word_at(acc, words[2] as int));
    assert(uint_field(fo, "wHour"@) == word_at(acc, words[3] as int));
    assert(uint_field(fo, "wMinute"@) == word_at(acc, words[4] as int));
    assert(uint_field(fo, "wSecond"@) == word_at(acc, words[5] as int));
    assert(uint_field(fo, "wMilliseconds"@) == word_at(acc, words[6] as int));
    if forall|k: int| 0 <= k < 7 ==> #[trigger] word_at(acc, words[k] as int) is Some {
        assert(word_at(acc, words[0] as int) is Some);
        assert(word_at(acc, words[1] as int) is Some);
        assert(word_at(acc, words[2] as int) is Some);
        assert(word_at(acc, words[3] as int) is Some);
        assert(word_at(acc, words[4] as int) is Some);
        assert(word_at(acc, words[5] as int) is Some);
        assert(word_at(acc, words[6] as int) is Some);
    } else {
        let k = choose|k: int| 0 <= k < 7 && !(#[trigger] word_at(acc, words[k] as int) is Some);
        assert(k == 0 || k == 1 || k == 2 || k == 3 || k == 4 || k == 5 || k == 6);
    }
}

// ----- The whole tree. -----
proof fn lemma_child_node(
    fs: Seq<(Seq<char>, (TypeTreeView, Option<u32>))>,
    size: usize,
    data: Seq<u8>,
    off: int,
    i: int,
)
    requires
        keys_unique(fs),
        0 <= off,
        0 <= i < fs.len(),
        fs[i].1.1 is Some,
    ensures
        child_node(tree_of(data, TypeTreeView::Struct(fs, size), off), fs[i].0) == tree_of(
            data,
            fs[i].1.0,
            off + fs[i].1.1->0,
        ),
{
    if off <= data.len() {
        let fo = fields_of(data, fs, off);
        assert(keys_unique(fo)) by {
            assert forall|a: int, b: int| 0 <= a < fo.len() && 0 <= b < fo.len() && a != b implies fo[a].0
                != fo[b].0 by {
                assert(fo[a].0 == fs[a].0);
                assert(fo[b].0 == fs[b].0);
            }
        }
        assert(Seq::<(Seq<char>, TreeView)>::empty() + fo =~= fo);
        lemma_insert_all_fresh(Seq::empty(), fo);
        assert(is_first_key(fo, fs[i].0, i)) by {
            assert forall|j: int| 0 <= j < i implies #[trigger] fo[j].0 != fs[i].0 by {
                assert(fo[j].0 == fs[j].0);
            }
        }
        lemma_key_index(fo, fs[i].0, i);
    }
}

proof fn lemma_fields_agree(
    fs: Seq<(Seq<char>, (TypeTreeView, Option<u32>))>,
    size: usize,
    n: int,
    off: int,
    data: Seq<u8>,
    path: Seq<char>,
)
    requires
        0 <= n <= fs.len(),
        0 <= off <= u32::MAX,
        !is_timestruct(fs),
        crate::symbol::map::fields_map_ok(fs, fs.len() as int, off),
        names_unique(TypeTreeView::Struct(fs, size)),
        no_unknown(TypeTreeView::Struct(fs, size)),
        leaves_readable(TypeTreeView::Struct(fs, size), off, data),
    ensures
        decoded(map_of_fields(fs, n, off, path), data) == entries_of_fields(
            fs,
            n,
            tree_of(data, TypeTreeView::Struct(fs, size), off),
            path,
        ),
    decreases fs, n,
{
    let node = tree_of(data, TypeTreeView::Struct(fs, size), off);
    if n == 0 {
        assert(decoded(Seq::<(Seq<char>, DescriptorView)>::empty(), data) =~= Seq::<
            (Seq<char>, PrimitiveValueView),
        >::empty());
    } else {
        lemma_fields_agree(fs, size, n - 1, off, data, path);
        let prev = map_of_fields(fs, n - 1, off, path);
        match fs[n - 1].1.1 {
            Some(o) => {
                crate::symbol::map::lemma_fields_map_ok_prefix(fs, fs.len() as int, n, off);
                let child = fs[n - 1].1.0;
                let cpath = child_path(path, fs[n - 1].0);
                assert(names_unique(child));
                assert(no_unknown(child));
                assert(leaves_readable(child, off + o, data));
                lemma_map_agrees_with_tree(child, off + o, data, cpath);
                lemma_decoded_insert_all(prev, map_of_tree(child, off + o, cpath), data);
                lemma_child_node(fs, size, data, off, n - 1);
            },
            None => {},
        }
    }
}

/// The values of the flattened map of a symbol's data are the leaves of
/// the symbol's decoded tree, entry for entry: decoding the map built from
/// type `t` placed at `off` gives, for every primitive leaf and every
/// TIMESTRUCT, the flat value of the tree node decoded there, in the same
/// order and under the same path. This holds for types the map handles
/// whose field names are distinct within each struct and that hold no
/// unknown kind, on data in which every leaf reads within bounds.
pub proof fn lemma_map_agrees_with_tree(t: TypeTreeView, off: int, data: Seq<u8>, path: Seq<char>)
    requires
        0 <= off <= u32::MAX,
        tree_map_ok(t, off),
        names_unique(t),
        no_unknown(t),
        leaves_readable(t, off, data),
    ensures
        decoded(map_of_tree(t, off, path), data) == entries_of(t, tree_of(data, t, off), path),
    decreases t, 1int,
{
    match t {
        TypeTreeView::Struct(fs, size) => {
            if is_timestruct(fs) {
                if timestruct_offsets(fs) is Some {
                    lemma_timestruct_agrees(t, off, data);
                    let d = (PrimitiveTypeView::TimeStruct(timestruct_offsets(fs)->0), off as u32);
                    assert(decoded(seq![(path, d)], data) =~= seq![(path, value_of(d, data))]);
                } else {
                    assert(decoded(Seq::<(Seq<char>, DescriptorView)>::empty(), data) =~= Seq::<
                        (Seq<char>, PrimitiveValueView),
                    >::empty());
                }
            } else {
                lemma_fields_agree(fs, size, fs.len() as int, off, data, path);
            }
        },
        _ => {
            match leaf_type(t) {
                Some(k) => {
                    lemma_leaf_agrees(t, off, data);
                    let d = (k, off as u32);
                    assert(decoded(seq![(path, d)], data) =~= seq![(path, value_of(d, data))]);
                },
                None => {
                    assert(decoded(Seq::<(Seq<char>, DescriptorView)>::empty(), data) =~= Seq::<
                        (Seq<char>, PrimitiveValueView),
                    >::empty());
                },
            }
        },
    }
}

} // verus!
