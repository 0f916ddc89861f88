//! Byte-string primitives shared by the header parser, the canonical-request
//! builder and the request rewriter. Every executable function is verified
//! against a spec function that states its result exactly.
use vstd::prelude::*;

verus! {

/// `p` is a prefix of `s`.
pub open spec fn has_prefix(s: Seq<u8>, p: Seq<u8>) -> bool {
    p.len() <= s.len() && s.take(p.len() as int) == p
}

/// The views of a sequence of byte vectors.
pub open spec fn views_of(s: Seq<Vec<u8>>) -> Seq<Seq<u8>> {
    s.map_values(|v: Vec<u8>| v@)
}

/// ASCII whitespace, as the tokenizer understands it.
pub open spec fn is_ws(b: u8) -> bool {
    b == 32 || (9 <= b && b <= 13)
}

pub open spec fn ws_to_space(b: u8) -> u8 {
    if is_ws(b) {
        32u8
    } else {
        b
    }
}

/// Every whitespace byte replaced by a plain space.
pub open spec fn normalize_ws(s: Seq<u8>) -> Seq<u8> {
    s.map_values(|b: u8| ws_to_space(b))
}

pub open spec fn comma_to_semi(b: u8) -> u8 {
    if b == 44u8 {
        59u8
    } else {
        b
    }
}

/// Every comma replaced by a semicolon.
pub open spec fn commas_to_semis(s: Seq<u8>) -> Seq<u8> {
    s.map_values(|b: u8| comma_to_semi(b))
}

/// `s` with all trailing commas removed.
pub open spec fn trim_commas(s: Seq<u8>) -> Seq<u8>
    decreases s.len(),
{
    if s.len() > 0 && s.last() == 44u8 {
        trim_commas(s.drop_last())
    } else {
        s
    }
}

/// `s` split at every occurrence of the byte `sep`; empty pieces are kept,
/// so the result always holds at least one piece.
pub open spec fn split_on(s: Seq<u8>, sep: u8) -> Seq<Seq<u8>>
    decreases s.len(),
{
    if s.len() == 0 {
        seq![Seq::<u8>::empty()]
    } else if s[0] == sep {
        seq![Seq::<u8>::empty()] + split_on(s.drop_first(), sep)
    } else {
        let rest = split_on(s.drop_first(), sep);
        seq![seq![s[0]] + rest[0]] + rest.drop_first()
    }
}

pub proof fn lemma_split_on_nonempty(s: Seq<u8>, sep: u8)
    ensures
        split_on(s, sep).len() >= 1,
    decreases s.len(),
{
    if s.len() == 0 {
    } else {
        lemma_split_on_nonempty(s.drop_first(), sep);
    }
}

/// `s` split at every leftmost, non-overlapping occurrence of the byte
/// string `sep`; empty pieces are kept.
pub open spec fn split_on_seq(s: Seq<u8>, sep: Seq<u8>) -> Seq<Seq<u8>>
    decreases s.len(),
{
    if sep.len() == 0 || s.len() < sep.len() {
        seq![s]
    } else if s.take(sep.len() as int) == sep {
        seq![Seq::<u8>::empty()] + split_on_seq(s.skip(sep.len() as int), sep)
    } else {
        let rest = split_on_seq(s.drop_first(), sep);
        seq![seq![s[0]] + rest[0]] + rest.drop_first()
    }
}

pub proof fn lemma_split_on_seq_nonempty(s: Seq<u8>, sep: Seq<u8>)
    ensures
        split_on_seq(s, sep).len() >= 1,
    decreases s.len(),
{
    if sep.len() == 0 || s.len() < sep.len() {
    } else if s.take(sep.len() as int) == sep {
        lemma_split_on_seq_nonempty(s.skip(sep.len() as int), sep);
    } else {
        lemma_split_on_seq_nonempty(s.drop_first(), sep);
    }
}

/// The pieces joined with the single byte `sep` between them.
pub open spec fn join_with(pieces: Seq<Seq<u8>>, sep: u8) -> Seq<u8>
    decreases pieces.len(),
{
    if pieces.len() == 0 {
        Seq::<u8>::empty()
    } else if pieces.len() == 1 {
        pieces[0]
    } else {
        join_with(pieces.drop_last(), sep) + seq![sep] + pieces.last()
    }
}

// ---------------------------------------------------------------------------
// Executable counterparts.
// ---------------------------------------------------------------------------

/// Byte-for-byte equality of two slices.
pub fn bytes_eq(a: &[u8], b: &[u8]) -> (r: bool)
    ensures
        r == (a@ == b@),
{
    if a.len() != b.len() {
        return false;
    }
    let mut i: usize = 0;
    while i < a.len()
        invariant
            a@.len() == b@.len(),
            0 <= i <= a@.len(),
            forall|j: int| 0 <= j < i ==> a@[j] == b@[j],
        decreases a@.len() - i,
    {
        if a[i] != b[i] {
            return false;
        }
        i += 1;
    }
    proof {
        assert(a@ =~= b@);
    }
    true
}

/// Whether `s` starts with `p`.
pub fn starts_with_bytes(s: &[u8], p: &[u8]) -> (r: bool)
    ensures
        r == has_prefix(s@, p@),
{
    if p.len() > s.len() {
        return false;
    }
    let pre = &s[0..p.len()];
    proof {
        assert(pre@ =~= s@.take(p@.len() as int));
    }
    bytes_eq(pre, p)
}

/// A fresh vector holding the bytes of `s`.
pub fn copy_bytes(s: &[u8]) -> (r: Vec<u8>)
    ensures
        r@ == s@,
{
    let mut r: Vec<u8> = Vec::new();
    r.extend_from_slice(s);
    proof {
        assert(r@ =~= s@);
    }
    r
}

/// The bytes of `s` from position `n` on.
pub fn tail_from(s: &[u8], n: usize) -> (r: Vec<u8>)
    requires
        n <= s@.len(),
    ensures
        r@ == s@.skip(n as int),
{
    let piece = &s[n..s.len()];
    let r = copy_bytes(piece);
    proof {
        assert(r@ =~= s@.skip(n as int));
    }
    r
}

/// `s` with all trailing commas removed.
pub fn trim_end_commas(s: &[u8]) -> (r: Vec<u8>)
    ensures
        r@ == trim_commas(s@),
{
    let mut end: usize = s.len();
    proof {
        assert(s@.take(end as int) =~= s@);
    }
    while end > 0 && s[end - 1] == 44u8
        invariant
            end <= s@.len(),
            trim_commas(s@) == trim_commas(s@.take(end as int)),
        decreases end,
    {
        proof {
            assert(s@.take(end as int).drop_last() =~= s@.take(end - 1 as int));
        }
        end = end - 1;
    }
    let piece = &s[0..end];
    let r = copy_bytes(piece);
    proof {
        assert(r@ =~= s@.take(end as int));
    }
    r
}

/// Every whitespace byte of `s` replaced by a plain space.
pub fn normalize_whitespace(s: &[u8]) -> (r: Vec<u8>)
    ensures
        r@ == normalize_ws(s@),
{
    let mut r: Vec<u8> = Vec::new();
    let mut i: usize = 0;
    while i < s.len()
        invariant
            0 <= i <= s@.len(),
            r@ == normalize_ws(s@.take(i as int)),
        decreases s@.len() - i,
    {
        let b = s[i];
        if b == 32 || (9 <= b && b <= 13) {
            r.push(32u8);
        } else {
            r.push(b);
        }
        i += 1;
        proof {
            assert(r@ =~= normalize_ws(s@.take(i as int)));
        }
    }
    proof {
        assert(s@.take(s@.len() as int) =~= s@);
    }
    r
}

/// Every comma of `s` replaced by a semicolon.
pub fn commas_to_semicolons(s: &[u8]) -> (r: Vec<u8>)
    ensures
        r@ == commas_to_semis(s@),
{
    let mut r: Vec<u8> = Vec::new();
    let mut i: usize = 0;
    while i < s.len()
        invariant
            0 <= i <= s@.len(),
            r@ == commas_to_semis(s@.take(i as int)),
        decreases s@.len() - i,
    {
        let b = s[i];
        if b == 44 {
            r.push(59u8);
        } else {
            r.push(b);
        }
        i += 1;
        proof {
            assert(r@ =~= commas_to_semis(s@.take(i as int)));
        }
    }
    proof {
        assert(s@.take(s@.len() as int) =~= s@);
    }
    r
}

/// `s` split at every occurrence of `sep`, empty pieces kept.
pub fn split_bytes(s: &[u8], sep: u8) -> (r: Vec<Vec<u8>>)
    ensures
        views_of(r@) == split_on(s@, sep),
{
    let mut pieces: Vec<Vec<u8>> = Vec::new();
    let mut cur: Vec<u8> = Vec::new();
    let mut i: usize = 0;
    proof {
        lemma_split_on_nonempty(s@, sep);
        assert(s@.skip(0) =~= s@);
    }
    while i < s.len()
        invariant
            0 <= i <= s@.len(),
            split_on(s@.skip(i as int), sep).len() >= 1,
            split_on(s@, sep) == views_of(pieces@) + seq![cur@ + split_on(s@.skip(i as int), sep)[0]]
                + split_on(s@.skip(i as int), sep).drop_first(),
        decreases s@.len() - i,
    {
        proof {
            assert(s@.skip(i as int).drop_first() =~= s@.skip(i + 1));
            lemma_split_on_nonempty(s@.skip(i + 1), sep);
        }
        let ghost prev = split_on(s@.skip(i as int), sep);
        let ghost next = split_on(s@.skip(i + 1), sep);
        if s[i] == sep {
            proof {
                assert(prev == seq![Seq::<u8>::empty()] + next);
                assert(cur@ + prev[0] =~= cur@);
                assert(prev.drop_first() =~= next);
            }
            pieces.push(cur);
            cur = Vec::new();
            proof {
                assert(views_of(pieces@) =~= views_of(pieces@.drop_last()).push(pieces@.last()@));
                assert(cur@ + next[0] =~= next[0]);
                assert(split_on(s@, sep) =~~= views_of(pieces@) + seq![cur@ + next[0]]
                    + next.drop_first());
            }
        } else {
            proof {
                assert(prev == seq![seq![s@[i as int]] + next[0]] + next.drop_first());
                assert(prev[0] == seq![s@[i as int]] + next[0]);
                assert(prev.drop_first() =~= next.drop_first());
            }
            let b = s[i];
            cur.push(b);
            proof {
                assert(cur@ + next[0] =~= cur@.drop_last() + prev[0]);
                assert(split_on(s@, sep) =~~= views_of(pieces@) + seq![cur@ + next[0]]
                    + next.drop_first());
            }
        }
        i += 1;
    }
    proof {
        assert(s@.skip(i as int) =~= Seq::<u8>::empty());
        assert(split_on(s@.skip(i as int), sep) == seq![Seq::<u8>::empty()]);
        assert(cur@ + Seq::<u8>::empty() =~= cur@);
    }
    pieces.push(cur);
    proof {
        assert(views_of(pieces@) =~= views_of(pieces@.drop_last()).push(pieces@.last()@));
        assert(views_of(pieces@) =~= split_on(s@, sep));
    }
    pieces
}

/// `s` split at every leftmost occurrence of the byte string `sep`,
/// empty pieces kept.
pub fn split_bytes_on(s: &[u8], sep: &[u8]) -> (r: Vec<Vec<u8>>)
    requires
        sep@.len() >= 1,
    ensures
        views_of(r@) == split_on_seq(s@, sep@),
{
    let mut pieces: Vec<Vec<u8>> = Vec::new();
    let mut cur: Vec<u8> = Vec::new();
    let mut i: usize = 0;
    proof {
        lemma_split_on_seq_nonempty(s@, sep@);
        assert(s@.skip(0) =~= s@);
    }
    while i < s.len()
        invariant
            sep@.len() >= 1,
            0 <= i <= s@.len(),
            split_on_seq(s@.skip(i as int), sep@).len() >= 1,
            split_on_seq(s@, sep@) == views_of(pieces@) + seq![
                cur@ + split_on_seq(s@.skip(i as int), sep@)[0],
            ] + split_on_seq(s@.skip(i as int), sep@).drop_first(),
        decreases s@.len() - i,
    {
        let ghost prev = split_on_seq(s@.skip(i as int), sep@);
        let rest = &s[i..s.len()];
        proof {
            assert(rest@ =~= s@.skip(i as int));
        }
        if starts_with_bytes(rest, sep) {
            let ghost next = split_on_seq(s@.skip(i + sep@.len() as int), sep@);
            proof {
                assert(s@.skip(i as int).take(sep@.len() as int) == sep@);
                assert(s@.skip(i as int).skip(sep@.len() as int) =~= s@.skip(
                    i + sep@.len() as int,
                ));
                lemma_split_on_seq_nonempty(s@.skip(i + sep@.len() as int), sep@);
                assert(prev == seq![Seq::<u8>::empty()] + next);
                assert(cur@ + prev[0] =~= cur@);
                assert(prev.drop_first() =~= next);
            }
            pieces.push(cur);
            cur = Vec::new();
            proof {
                assert(views_of(pieces@) =~= views_of(pieces@.drop_last()).push(pieces@.last()@));
                assert(cur@ + next[0] =~= next[0]);
                assert(split_on_seq(s@, sep@) =~~= views_of(pieces@) + seq![cur@ + next[0]]
                    + next.drop_first());
            }
            i += sep.len();
        } else {
            let ghost next = split_on_seq(s@.skip(i + 1), sep@);
            proof {
                assert(s@.skip(i as int).drop_first() =~= s@.skip(i + 1));
                lemma_split_on_seq_nonempty(s@.skip(i + 1), sep@);
                if s@.skip(i as int).len() < sep@.len() {
                    assert(prev == seq![s@.skip(i as int)]);
                    assert(next == seq![s@.skip(i + 1)]);
                    assert(prev[0] =~= seq![s@[i as int]] + next[0]);
                    assert(prev =~~= seq![seq![s@[i as int]] + next[0]] + next.drop_first());
                } else {
                    assert(prev == seq![seq![s@[i as int]] + next[0]] + next.drop_first());
                }
                assert(prev[0] == seq![s@[i as int]] + next[0]);
                assert(prev.drop_first() =~= next.drop_first());
            }
            let b = s[i];
            cur.push(b);
            proof {
                assert(cur@ + next[0] =~= cur@.drop_last() + prev[0]);
                assert(split_on_seq(s@, sep@) =~~= views_of(pieces@) + seq![cur@ + next[0]]
                    + next.drop_first());
            }
            i += 1;
        }
    }
    proof {
        assert(s@.skip(i as int) =~= Seq::<u8>::empty());
        assert(cur@ + Seq::<u8>::empty() =~= cur@);
    }
    pieces.push(cur);
    proof {
        assert(views_of(pieces@) =~= views_of(pieces@.drop_last()).push(pieces@.last()@));
        assert(views_of(pieces@) =~= split_on_seq(s@, sep@));
    }
    pieces
}

/// The pieces joined with the single byte `sep` between them.
pub fn join_bytes(pieces: &Vec<Vec<u8>>, sep: u8) -> (r: Vec<u8>)
    ensures
        r@ == join_with(views_of(pieces@), sep),
{
    let mut r: Vec<u8> = Vec::new();
    let mut i: usize = 0;
    while i < pieces.len()
        invariant
            0 <= i <= pieces@.len(),
            r@ == join_with(views_of(pieces@).take(i as int), sep),
        decreases pieces@.len() - i,
    {
        if i > 0 {
            r.push(sep);
        }
        r.extend_from_slice(pieces[i].as_slice());
        i += 1;
        proof {
            let v = views_of(pieces@);
            assert(v.take(i as int).drop_last() =~= v.take(i - 1));
            assert(v.take(i as int).last() == pieces@[i - 1]@);
            if i == 1 {
                assert(r@ =~= v.take(1)[0]);
            } else {
                assert(r@ =~= join_with(v.take(i - 1), sep) + seq![sep] + v.take(i as int).last());
            }
        }
    }
    proof {
        assert(views_of(pieces@).take(pieces@.len() as int) =~= views_of(pieces@));
    }
    r
}

} // verus!
