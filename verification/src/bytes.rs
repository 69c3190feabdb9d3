//! Byte-string helpers shared by the pattern matcher and the extractors:
//! splitting on a separator byte and turning string literals into byte
//! vectors.

use vstd::prelude::*;
use vstd::string::StringSliceAdditionalSpecFns;

verus! {

/// The UTF-8 bytes of a string, as a spec-level sequence.
pub open spec fn bytes_of(s: &str) -> Seq<u8> {
    s.spec_bytes()
}

/// Copies a string's UTF-8 bytes into an owned vector.
pub fn lit_bytes(s: &str) -> (r: Vec<u8>)
    ensures
        r@ == bytes_of(s),
{
    vstd::slice::slice_to_vec(s.as_bytes())
}

/// The views of a sequence of byte vectors.
pub open spec fn views_of(v: Seq<Vec<u8>>) -> Seq<Seq<u8>> {
    v.map_values(|x: Vec<u8>| x@)
}

/// Appends a byte string to a buffer.
pub fn append_bytes(out: &mut Vec<u8>, s: &[u8])
    ensures
        final(out)@ == old(out)@ + s@,
{
    let mut i: usize = 0;
    proof {
        assert(out@ =~= old(out)@ + s@.take(0));
    }
    while i < s.len()
        invariant
            i <= s.len(),
            out@ == old(out)@ + s@.take(i as int),
        decreases s.len() - i,
    {
        out.push(s[i]);
        proof {
            assert(s@.take(i as int + 1) =~= s@.take(i as int) + seq![s@[i as int]]);
            assert(out@ =~= old(out)@ + s@.take(i as int + 1));
        }
        i += 1;
    }
    proof {
        assert(s@.take(i as int) =~= s@);
    }
}

/// Compares two byte strings.
pub fn eq_bytes(a: &[u8], b: &[u8]) -> (r: bool)
    ensures
        r == (a@ == b@),
{
    if a.len() != b.len() {
        assert(a@ != b@) by {
            assert(a@.len() != b@.len());
        }
        return false;
    }
    let mut i: usize = 0;
    while i < a.len()
        invariant
            i <= a.len(),
            a@.len() == b@.len(),
            forall|k: int| 0 <= k < i ==> a@[k] == b@[k],
        decreases a.len() - i,
    {
        if a[i] != b[i] {
            assert(a@ != b@) by {
                assert(a@[i as int] != b@[i as int]);
            }
            return false;
        }
        i += 1;
    }
    proof {
        assert(a@ =~= b@);
    }
    true
}

/// The parts of `s` between occurrences of `sep`. Every input yields at
/// least one part; an empty input yields one empty part, and a leading,
/// trailing or doubled separator yields an empty part at that place.
pub open spec fn spec_split(s: Seq<u8>, sep: u8) -> Seq<Seq<u8>>
    decreases s.len(),
{
    if s.len() == 0 {
        seq![Seq::<u8>::empty()]
    } else if s[0] == sep {
        seq![Seq::<u8>::empty()] + spec_split(s.skip(1), sep)
    } else {
        let rest = spec_split(s.skip(1), sep);
        seq![seq![s[0]] + rest[0]] + rest.skip(1)
    }
}

pub proof fn lemma_split_len(s: Seq<u8>, sep: u8)
    ensures
        spec_split(s, sep).len() >= 1,
    decreases s.len(),
{
    if s.len() != 0 {
        lemma_split_len(s.skip(1), sep);
    }
}

/// `parts` with `c` prepended to its first part.
pub open spec fn cons_first(c: Seq<u8>, parts: Seq<Seq<u8>>) -> Seq<Seq<u8>>
    recommends
        parts.len() >= 1,
{
    seq![c + parts[0]] + parts.skip(1)
}

/// Splits `s` at every occurrence of `sep`.
pub fn split_bytes(s: &[u8], sep: u8) -> (r: Vec<Vec<u8>>)
    ensures
        views_of(r@) == spec_split(s@, sep),
{
    let mut parts: Vec<Vec<u8>> = Vec::new();
    let mut cur: Vec<u8> = Vec::new();
    let mut i: usize = 0;
    proof {
        lemma_split_len(s@, sep);
        assert(s@.skip(0) == s@);
        assert(views_of(parts@) + cons_first(cur@, spec_split(s@, sep)) =~~= spec_split(
            s@,
            sep,
        ));
    }
    while i < s.len()
        invariant
            i <= s.len(),
            spec_split(s@, sep) =~~= views_of(parts@) + cons_first(
                cur@,
                spec_split(s@.skip(i as int), sep),
            ),
        decreases s.len() - i,
    {
        let ghost pre = s@.skip(i as int);
        let ghost post = s@.skip(i as int + 1);
        proof {
            assert(pre.len() > 0);
            assert(pre[0] == s@[i as int]);
            assert(pre.skip(1) =~= post);
            lemma_split_len(post, sep);
        }
        if s[i] == sep {
            let ghost old_parts = parts@;
            let ghost old_cur = cur@;
            parts.push(cur);
            cur = Vec::new();
            proof {
                let rest = spec_split(post, sep);
                assert(spec_split(pre, sep) =~~= seq![Seq::<u8>::empty()] + rest);
                assert(cons_first(old_cur, seq![Seq::<u8>::empty()] + rest) =~~= seq![old_cur]
                    + rest);
                assert(views_of(parts@) =~~= views_of(old_parts) + seq![old_cur]);
                assert(cons_first(cur@, rest) =~~= rest);
            }
        } else {
            let ghost old_cur = cur@;
            let b = s[i];
            cur.push(b);
            proof {
                let rest = spec_split(post, sep);
                assert(spec_split(pre, sep) =~~= cons_first(seq![b], rest));
                assert(cons_first(seq![b], rest).len() >= 1);
                assert(cons_first(seq![b], rest)[0] == seq![b] + rest[0]);
                assert(cons_first(seq![b], rest).skip(1) =~~= rest.skip(1));
                assert(cons_first(old_cur, cons_first(seq![b], rest)) =~~= cons_first(
                    old_cur + seq![b],
                    rest,
                ));
                assert(cur@ == old_cur + seq![b]);
            }
        }
        i += 1;
    }
    proof {
        assert(s@.skip(i as int) =~= Seq::<u8>::empty());
        assert(spec_split(s@.skip(i as int), sep) =~~= seq![Seq::<u8>::empty()]);
        assert(cons_first(cur@, seq![Seq::<u8>::empty()]) =~~= seq![cur@]);
    }
    let ghost old_parts = parts@;
    parts.push(cur);
    proof {
        assert(views_of(parts@) =~~= views_of(old_parts) + seq![parts@[old_parts.len() as int]@]);
    }
    parts
}

/// `s` split at the first occurrence of `sep`: the bytes before it and the
/// bytes after it. Without an occurrence, the whole of `s` and nothing.
pub open spec fn spec_split_first(s: Seq<u8>, sep: u8) -> (Seq<u8>, Seq<u8>)
    decreases s.len(),
{
    if s.len() == 0 {
        (Seq::<u8>::empty(), Seq::<u8>::empty())
    } else if s[0] == sep {
        (Seq::<u8>::empty(), s.skip(1))
    } else {
        let r = spec_split_first(s.skip(1), sep);
        (seq![s[0]] + r.0, r.1)
    }
}

proof fn lemma_split_first_at(s: Seq<u8>, sep: u8, j: int)
    requires
        0 <= j <= s.len(),
        forall|k: int| 0 <= k < j ==> s[k] != sep,
        j < s.len() ==> s[j] == sep,
    ensures
        spec_split_first(s, sep).0 == s.take(j),
        spec_split_first(s, sep).1 == if j == s.len() {
            Seq::<u8>::empty()
        } else {
            s.skip(j + 1)
        },
    decreases j,
{
    if s.len() == 0 {
        assert(s.take(0) =~= Seq::<u8>::empty());
    } else if j == 0 {
        if s[0] == sep {
            assert(s.take(0) =~= Seq::<u8>::empty());
        } else {
            assert(j == s.len()) by {
                assert(j < s.len() ==> s[j] == sep);
            }
        }
    } else {
        lemma_split_first_at(s.skip(1), sep, j - 1);
        assert(seq![s[0]] + s.skip(1).take(j - 1) =~= s.take(j));
        if j < s.len() {
            assert(s.skip(1).skip(j) =~= s.skip(j + 1));
        }
    }
}

/// Splits `s` at the first occurrence of `sep`.
pub fn split_first(s: &Vec<u8>, sep: u8) -> (r: (Vec<u8>, Vec<u8>))
    ensures
        r.0@ == spec_split_first(s@, sep).0,
        r.1@ == spec_split_first(s@, sep).1,
{
    let mut j: usize = 0;
    while j < s.len()
        invariant
            j <= s.len(),
            forall|k: int| 0 <= k < j ==> s@[k] != sep,
        decreases s.len() - j,
    {
        if s[j] == sep {
            proof {
                lemma_split_first_at(s@, sep, j as int);
            }
            let before = vstd::slice::slice_to_vec(
                vstd::slice::slice_subrange(s.as_slice(), 0, j),
            );
            let after = vstd::slice::slice_to_vec(
                vstd::slice::slice_subrange(s.as_slice(), j + 1, s.len()),
            );
            proof {
                assert(before@ =~= s@.take(j as int));
                assert(after@ =~= s@.skip(j as int + 1));
            }
            return (before, after);
        }
        j += 1;
    }
    proof {
        lemma_split_first_at(s@, sep, j as int);
        assert(s@.take(j as int) =~= s@);
    }
    (vstd::slice::slice_to_vec(s.as_slice()), Vec::new())
}

} // verus!
