//! Small string helpers: characters of a string, paths, splitting.
use vstd::prelude::*;
use vstd::string::StringExecFns;

verus! {

/// Appends one character to a string (`String::push`).
#[verifier::external_body]
pub(crate) fn string_push(s: &mut String, c: char)
    ensures
        final(s)@ == old(s)@.push(c),
{
    s.push(c)
}

/// The characters of `s`, in order.
pub fn chars_of(s: &str) -> (v: Vec<char>)
    ensures
        v@ == s@,
{
    let mut v: Vec<char> = Vec::new();
    for c in it: s.chars()
        invariant
            it.seq() == s@,
            v@ == it.seq().take(it.index() as int),
    {
        v.push(c);
    }
    v
}

/// A string made of the given characters.
pub fn string_from_chars(cs: &[char]) -> (s: String)
    ensures
        s@ == cs@,
{
    let mut s = String::new();
    let mut i: usize = 0;
    while i < cs.len()
        invariant
            i <= cs@.len(),
            s@ == cs@.take(i as int),
        decreases cs@.len() - i,
    {
        string_push(&mut s, cs[i]);
        assert(cs@.take(i + 1) =~= cs@.take(i as int).push(cs@[i as int]));
        i = i + 1;
    }
    assert(cs@.take(cs@.len() as int) =~= cs@);
    s
}

/// Whether two strings hold the same characters.
pub fn str_eq(a: &str, b: &str) -> (r: bool)
    ensures
        r == (a@ == b@),
{
    let x = a.to_owned();
    let y = b.to_owned();
    x == y
}

/// `a` followed by `sep` and `b`.
pub open spec fn joined(a: Seq<char>, sep: char, b: Seq<char>) -> Seq<char> {
    a + seq![sep] + b
}

/// The path of a child called `name` below the node at `path`: the name
/// alone below the root (an empty path), else the two joined by a period.
pub open spec fn child_path(path: Seq<char>, name: Seq<char>) -> Seq<char> {
    if path.len() == 0 {
        name
    } else {
        joined(path, '.', name)
    }
}

/// Builds `child_path(path, name)`.
pub fn make_child_path(path: &str, name: &str) -> (r: String)
    ensures
        r@ == child_path(path@, name@),
{
    if path.is_empty() {
        name.to_owned()
    } else {
        let mut r = path.to_owned();
        string_push(&mut r, '.');
        r.append(name);
        r
    }
}

/// The pieces of `s` between occurrences of `sep`, as `str::split` gives
/// them: always at least one piece, empty pieces kept.
pub open spec fn split(s: Seq<char>, sep: char) -> Seq<Seq<char>>
    decreases s.len(),
{
    if s.len() == 0 {
        seq![Seq::<char>::empty()]
    } else {
        let rest = split(s.drop_first(), sep);
        if s[0] == sep {
            seq![Seq::<char>::empty()] + rest
        } else {
            rest.update(0, seq![s[0]] + rest[0])
        }
    }
}

/// `split` never gives an empty list of pieces.
pub proof fn lemma_split_nonempty(s: Seq<char>, sep: char)
    ensures
        split(s, sep).len() >= 1,
    decreases s.len(),
{
    if s.len() > 0 {
        lemma_split_nonempty(s.drop_first(), sep);
    }
}

/// Splitting `p + [c]` where `c` is not the separator extends the last piece.
proof fn lemma_split_push_other(p: Seq<char>, c: char, sep: char)
    requires
        c != sep,
    ensures
        split(p.push(c), sep) == split(p, sep).update(
            split(p, sep).len() - 1,
            split(p, sep).last().push(c),
        ),
    decreases p.len(),
{
    lemma_split_nonempty(p, sep);
    if p.len() == 0 {
        assert(p.push(c).drop_first() =~= Seq::<char>::empty());
        assert(split(Seq::<char>::empty(), sep) == seq![Seq::<char>::empty()]);
        assert(seq![c] + Seq::<char>::empty() =~= seq![c]);
        assert(p =~= Seq::<char>::empty());
        assert(Seq::<char>::empty().push(c) =~= seq![c]);
        assert(split(p.push(c), sep) =~= seq![seq![c]]);
    } else {
        let q = p.drop_first();
        assert(p.push(c).drop_first() =~= q.push(c));
        lemma_split_push_other(q, c, sep);
        lemma_split_nonempty(q, sep);
        let rq = split(q, sep);
        if p[0] == sep {
            assert(split(p.push(c), sep) =~= seq![Seq::<char>::empty()] + split(q.push(c), sep));
            assert(split(p.push(c), sep) =~= split(p, sep).update(
                split(p, sep).len() - 1,
                split(p, sep).last().push(c),
            ));
        } else {
            let rqc = split(q.push(c), sep);
            assert(rqc =~= rq.update(rq.len() - 1, rq.last().push(c)));
            if rq.len() == 1 {
                assert((seq![p[0]] + rq[0]).push(c) =~= seq![p[0]] + rq[0].push(c));
            }
            assert(split(p.push(c), sep) =~= split(p, sep).update(
                split(p, sep).len() - 1,
                split(p, sep).last().push(c),
            ));
        }
    }
}

/// Splitting `p + [sep]` starts a new, empty last piece.
proof fn lemma_split_push_sep(p: Seq<char>, sep: char)
    ensures
        split(p.push(sep), sep) == split(p, sep).push(Seq::<char>::empty()),
    decreases p.len(),
{
    lemma_split_nonempty(p, sep);
    if p.len() == 0 {
        assert(p.push(sep).drop_first() =~= Seq::<char>::empty());
        assert(split(Seq::<char>::empty(), sep) == seq![Seq::<char>::empty()]);
        assert(p =~= Seq::<char>::empty());
        assert(split(p.push(sep), sep) =~= seq![Seq::<char>::empty(), Seq::<char>::empty()]);
    } else {
        let q = p.drop_first();
        assert(p.push(sep).drop_first() =~= q.push(sep));
        lemma_split_push_sep(q, sep);
        lemma_split_nonempty(q, sep);
        if p[0] == sep {
            assert(split(p.push(sep), sep) =~= split(p, sep).push(Seq::<char>::empty()));
        } else {
            assert(split(p.push(sep), sep) =~= split(p, sep).push(Seq::<char>::empty()));
        }
    }
}

/// The pieces of `s` between occurrences of `sep` (`str::split`).
pub fn split_chars(s: &str, sep: char) -> (pieces: Vec<Vec<char>>)
    ensures
        pieces@.len() == split(s@, sep).len(),
        forall|i: int| 0 <= i < pieces@.len() ==> #[trigger] pieces@[i]@ == split(s@, sep)[i],
{
    let cs = chars_of(s);
    let mut pieces: Vec<Vec<char>> = Vec::new();
    let mut cur: Vec<char> = Vec::new();
    let mut i: usize = 0;
    while i < cs.len()
        invariant
            i <= cs@.len(),
            cs@ == s@,
            split(cs@.take(i as int), sep) =~= Seq::new(pieces@.len() as nat, |k: int| pieces@[k]@).push(cur@),
        decreases cs@.len() - i,
    {
        let c = cs[i];
        assert(cs@.take(i + 1) =~= cs@.take(i as int).push(c));
        if c == sep {
            proof { lemma_split_push_sep(cs@.take(i as int), sep); }
            pieces.push(cur);
            cur = Vec::new();
            assert(split(cs@.take(i + 1), sep) =~= Seq::new(pieces@.len() as nat, |k: int| pieces@[k]@).push(cur@));
        } else {
            proof { lemma_split_push_other(cs@.take(i as int), c, sep); }
            cur.push(c);
            assert(split(cs@.take(i + 1), sep) =~= Seq::new(pieces@.len() as nat, |k: int| pieces@[k]@).push(cur@));
        }
        i = i + 1;
    }
    assert(cs@.take(cs@.len() as int) =~= cs@);
    pieces.push(cur);
    assert(split(s@, sep) =~= Seq::new(pieces@.len() as nat, |k: int| pieces@[k]@));
    pieces
}

} // verus!

verus! {

/// What `String::from_utf8_lossy` makes of a run of bytes: the UTF-8 text,
/// each invalid sequence replaced by U+FFFD.
pub uninterp spec fn utf8_lossy(bytes: Seq<u8>) -> Seq<char>;

/// What `String::from_utf16_lossy` makes of a run of UTF-16 code units: the
/// text, each unpaired surrogate replaced by U+FFFD.
pub uninterp spec fn utf16_lossy(words: Seq<u16>) -> Seq<char>;

/// `String::from_utf8_lossy`, made an owned `String`.
#[verifier::external_body]
pub(crate) fn string_from_utf8_lossy(bytes: &[u8]) -> (s: String)
    ensures
        s@ == utf8_lossy(bytes@),
{
    String::from_utf8_lossy(bytes).to_string()
}

/// `String::from_utf16_lossy`.
#[verifier::external_body]
pub(crate) fn string_from_utf16_lossy(words: &[u16]) -> (s: String)
    ensures
        s@ == utf16_lossy(words@),
{
    String::from_utf16_lossy(words)
}

} // verus!

verus! {

/// Text without the separator is a single piece.
pub proof fn lemma_split_no_sep(a: Seq<char>, sep: char)
    requires
        forall|i: int| 0 <= i < a.len() ==> #[trigger] a[i] != sep,
    ensures
        split(a, sep) == seq![a],
    decreases a.len(),
{
    if a.len() > 0 {
        lemma_split_no_sep(a.drop_first(), sep);
        assert(seq![a[0]] + a.drop_first() =~= a);
        assert(split(a, sep) =~= seq![a]);
    } else {
        assert(a =~= Seq::<char>::empty());
    }
}

/// Splitting two texts joined by the separator gives the pieces of the
/// first, then those of the second.
pub proof fn lemma_split_join(a: Seq<char>, sep: char, b: Seq<char>)
    ensures
        split(a + seq![sep] + b, sep) == split(a, sep) + split(b, sep),
    decreases a.len(),
{
    lemma_split_nonempty(b, sep);
    let s = a + seq![sep] + b;
    if a.len() == 0 {
        assert(s =~= seq![sep] + b);
        assert(s.drop_first() =~= b);
        assert(a =~= Seq::<char>::empty());
        assert(split(s, sep) =~= split(a, sep) + split(b, sep));
    } else {
        let a1 = a.drop_first();
        assert(s.drop_first() =~= a1 + seq![sep] + b);
        lemma_split_join(a1, sep, b);
        lemma_split_nonempty(a1, sep);
        assert(split(s, sep) =~= split(a, sep) + split(b, sep));
    }
}

/// A first piece without the separator, then the separator, then the rest.
pub proof fn lemma_split_concat(a: Seq<char>, sep: char, b: Seq<char>)
    requires
        forall|i: int| 0 <= i < a.len() ==> #[trigger] a[i] != sep,
    ensures
        split(a + seq![sep] + b, sep) == seq![a] + split(b, sep),
    decreases a.len(),
{
    lemma_split_nonempty(b, sep);
    if a.len() == 0 {
        assert(a + seq![sep] + b =~= seq![sep] + b);
        assert((seq![sep] + b).drop_first() =~= b);
        assert(a =~= Seq::<char>::empty());
        assert(split(a + seq![sep] + b, sep) =~= seq![a] + split(b, sep));
    } else {
        let a1 = a.drop_first();
        assert((a + seq![sep] + b).drop_first() =~= a1 + seq![sep] + b);
        lemma_split_concat(a1, sep, b);
        assert(seq![a[0]] + a1 =~= a);
        assert(split(a + seq![sep] + b, sep) =~= seq![a] + split(b, sep));
    }
}


/// What `str::to_lowercase` makes of a text: its Unicode lowercase form, in
/// which a character's mapping may depend on its neighbours (a capital sigma
/// at the end of a word becomes a final sigma).
pub uninterp spec fn lowercase(s: Seq<char>) -> Seq<char>;

/// `str::to_lowercase`: the text in lowercase; the result depends on the
/// text alone.
#[verifier::external_body]
pub(crate) fn to_lowercase(s: &str) -> (r: String)
    ensures
        r@ == lowercase(s@),
{
    s.to_lowercase()
}

} // verus!
