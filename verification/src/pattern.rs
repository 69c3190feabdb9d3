//! Route patterns: a pattern is a sequence of segments, each either a
//! literal or a named capture written with a leading `:`. Matching demands
//! the same number of segments and compares position by position; a capture
//! takes exactly one path segment.

use vstd::prelude::*;
use crate::bytes::eq_bytes;
use crate::bytes::views_of;
use crate::query::pair_views;

verus! {

/// A pattern segment that begins with `:` names a capture; any other
/// segment is a literal.
pub open spec fn is_capture(seg: Seq<u8>) -> bool {
    seg.len() > 0 && seg[0] == 58
}

/// The capture's name: the segment without its leading `:`.
pub open spec fn capture_name(seg: Seq<u8>) -> Seq<u8> {
    seg.skip(1)
}

/// Matches pattern segments against path parts: equal segment count, literal
/// segments equal byte for byte, each capture binding its name to the path
/// part at its position, in pattern order.
pub open spec fn spec_match_parts(pat: Seq<Seq<u8>>, parts: Seq<Seq<u8>>) -> Option<
    Seq<(Seq<u8>, Seq<u8>)>,
>
    decreases pat.len(),
{
    if pat.len() == 0 {
        if parts.len() == 0 {
            Some(Seq::<(Seq<u8>, Seq<u8>)>::empty())
        } else {
            None
        }
    } else if parts.len() == 0 {
        None
    } else if is_capture(pat[0]) {
        match spec_match_parts(pat.skip(1), parts.skip(1)) {
            Some(caps) => Some(seq![(capture_name(pat[0]), parts[0])] + caps),
            None => None,
        }
    } else if pat[0] == parts[0] {
        spec_match_parts(pat.skip(1), parts.skip(1))
    } else {
        None
    }
}

/// A match binds as many captures as the pattern has segments of that kind,
/// and needs equal segment counts.
pub proof fn lemma_match_len(pat: Seq<Seq<u8>>, parts: Seq<Seq<u8>>)
    requires
        pat.len() != parts.len(),
    ensures
        spec_match_parts(pat, parts) is None,
    decreases pat.len(),
{
    if pat.len() != 0 && parts.len() != 0 {
        lemma_match_len(pat.skip(1), parts.skip(1));
    }
}

/// Matches a compiled pattern against the parts of a concrete path,
/// returning the captured parameters in pattern order.
pub fn match_parts(pat: &Vec<Vec<u8>>, parts: &Vec<Vec<u8>>) -> (r: Option<
    Vec<(Vec<u8>, Vec<u8>)>,
>)
    ensures
        match r {
            Some(caps) => spec_match_parts(views_of(pat@), views_of(parts@)) == Some(
                pair_views(caps@),
            ),
            None => spec_match_parts(views_of(pat@), views_of(parts@)) is None,
        },
{
    let ghost vp = views_of(pat@);
    let ghost vq = views_of(parts@);
    if pat.len() != parts.len() {
        proof {
            lemma_match_len(vp, vq);
        }
        return None;
    }
    let mut caps: Vec<(Vec<u8>, Vec<u8>)> = Vec::new();
    let mut i: usize = 0;
    proof {
        assert(vp.skip(0) == vp);
        assert(vq.skip(0) == vq);
    }
    while i < pat.len()
        invariant
            i <= pat.len(),
            pat@.len() == parts@.len(),
            vp == views_of(pat@),
            vq == views_of(parts@),
            match spec_match_parts(vp.skip(i as int), vq.skip(i as int)) {
                Some(c) => spec_match_parts(vp, vq) == Some(pair_views(caps@) + c),
                None => spec_match_parts(vp, vq) is None,
            },
        decreases pat.len() - i,
    {
        proof {
            assert(vp.skip(i as int)[0] == pat@[i as int]@);
            assert(vq.skip(i as int)[0] == parts@[i as int]@);
            assert(vp.skip(i as int).skip(1) =~= vp.skip(i as int + 1));
            assert(vq.skip(i as int).skip(1) =~= vq.skip(i as int + 1));
        }
        let seg = &pat[i];
        if seg.len() > 0 && seg[0] == 58 {
            let name = vstd::slice::slice_to_vec(
                vstd::slice::slice_subrange(seg.as_slice(), 1, seg.len()),
            );
            let value = vstd::slice::slice_to_vec(parts[i].as_slice());
            let ghost old_caps = caps@;
            proof {
                assert(name@ =~= capture_name(pat@[i as int]@));
            }
            caps.push((name, value));
            proof {
                assert(pair_views(caps@) =~~= pair_views(old_caps) + seq![
                    (capture_name(vp.skip(i as int)[0]), vq.skip(i as int)[0]),
                ]);
                if let Some(c) = spec_match_parts(vp.skip(i as int + 1), vq.skip(i as int + 1)) {
                    assert(pair_views(old_caps) + (seq![
                        (capture_name(vp.skip(i as int)[0]), vq.skip(i as int)[0]),
                    ] + c) =~~= pair_views(caps@) + c);
                }
            }
        } else {
            if !eq_bytes(seg.as_slice(), parts[i].as_slice()) {
                return None;
            }
        }
        i += 1;
    }
    proof {
        assert(vp.skip(i as int) =~~= Seq::<Seq<u8>>::empty());
        assert(vq.skip(i as int) =~~= Seq::<Seq<u8>>::empty());
        assert(pair_views(caps@) + Seq::<(Seq<u8>, Seq<u8>)>::empty() =~~= pair_views(caps@));
    }
    Some(caps)
}

/// Pattern `a` beats pattern `b` when, at the first position where one has a
/// literal and the other a capture, `a` has the literal. Among patterns that
/// match one concrete path this is the tie-break; ties that remain fall to
/// registration order.
pub open spec fn spec_beats(a: Seq<Seq<u8>>, b: Seq<Seq<u8>>) -> bool
    decreases a.len(),
{
    if a.len() == 0 || b.len() == 0 {
        false
    } else if is_capture(a[0]) == is_capture(b[0]) {
        spec_beats(a.skip(1), b.skip(1))
    } else {
        !is_capture(a[0])
    }
}

/// Decides whether pattern `a` beats pattern `b`.
pub fn beats(a: &Vec<Vec<u8>>, b: &Vec<Vec<u8>>) -> (r: bool)
    ensures
        r == spec_beats(views_of(a@), views_of(b@)),
{
    let ghost va = views_of(a@);
    let ghost vb = views_of(b@);
    let mut i: usize = 0;
    proof {
        assert(va.skip(0) == va);
        assert(vb.skip(0) == vb);
    }
    while i < a.len() && i < b.len()
        invariant
            i <= a.len(),
            i <= b.len(),
            va == views_of(a@),
            vb == views_of(b@),
            spec_beats(va, vb) == spec_beats(va.skip(i as int), vb.skip(i as int)),
        decreases a.len() - i,
    {
        proof {
            assert(va.skip(i as int)[0] == a@[i as int]@);
            assert(vb.skip(i as int)[0] == b@[i as int]@);
            assert(va.skip(i as int).skip(1) =~= va.skip(i as int + 1));
            assert(vb.skip(i as int).skip(1) =~= vb.skip(i as int + 1));
        }
        let ca = a[i].len() > 0 && a[i][0] == 58;
        let cb = b[i].len() > 0 && b[i][0] == 58;
        if ca != cb {
            return !ca;
        }
        i += 1;
    }
    proof {
        assert(va.skip(i as int).len() == 0 || vb.skip(i as int).len() == 0);
    }
    false
}

/// Two patterns have the same shape when they are captures at the same
/// positions and agree on every literal; capture names do not matter. Routes
/// of the same method and shape would match exactly the same paths, so a
/// second one is rejected at registration.
pub open spec fn spec_same_shape(a: Seq<Seq<u8>>, b: Seq<Seq<u8>>) -> bool {
    a.len() == b.len() && forall|i: int|
        0 <= i < a.len() ==> (is_capture(#[trigger] a[i]) == is_capture(b[i]) && (!is_capture(a[i])
            ==> a[i] == b[i]))
}

/// Decides whether two patterns have the same shape.
pub fn same_shape(a: &Vec<Vec<u8>>, b: &Vec<Vec<u8>>) -> (r: bool)
    ensures
        r == spec_same_shape(views_of(a@), views_of(b@)),
{
    let ghost va = views_of(a@);
    let ghost vb = views_of(b@);
    if a.len() != b.len() {
        return false;
    }
    let mut i: usize = 0;
    while i < a.len()
        invariant
            i <= a.len(),
            a@.len() == b@.len(),
            va == views_of(a@),
            vb == views_of(b@),
            forall|k: int|
                0 <= k < i ==> (is_capture(#[trigger] va[k]) == is_capture(vb[k]) && (!is_capture(
                    va[k],
                ) ==> va[k] == vb[k])),
        decreases a.len() - i,
    {
        proof {
            assert(va[i as int] == a@[i as int]@);
            assert(vb[i as int] == b@[i as int]@);
        }
        let ca = a[i].len() > 0 && a[i][0] == 58;
        let cb = b[i].len() > 0 && b[i][0] == 58;
        if ca != cb {
            return false;
        }
        if !ca {
            if !eq_bytes(a[i].as_slice(), b[i].as_slice()) {
                return false;
            }
        }
        i += 1;
    }
    true
}

} // verus!
