//! The JSON subset the framework's body extractor and response builder
//! speak: flat objects whose values are strings, and arrays of unsigned
//! integers — the shapes the typed targets of this layer take. Strings
//! escape `"` and `\`; raw control bytes are rejected on both sides.
//! Parsing tolerates whitespace between tokens; encoding emits none, and
//! parsing an encoded value gives the value back (proved below).

use vstd::prelude::*;
use crate::error::ExtractError;
use crate::num::all_digits;
use crate::num::is_digit;
use crate::num::spec_num;
use crate::num::parse_u64;
use crate::num::fmt_u64;
use crate::num::spec_digits;
use crate::query::pair_views;

verus! {

/// A string this subset can carry: no raw control bytes.
pub open spec fn str_wf(s: Seq<u8>) -> bool {
    forall|i: int| 0 <= i < s.len() ==> #[trigger] s[i] >= 32
}

/// Every key and value of the object is a carryable string.
pub open spec fn obj_wf(ps: Seq<(Seq<u8>, Seq<u8>)>) -> bool {
    forall|i: int| 0 <= i < ps.len() ==> str_wf((#[trigger] ps[i]).0) && str_wf(ps[i].1)
}

/// String-body escaping: `"` and `\` get a backslash, all else passes.
pub open spec fn spec_esc(s: Seq<u8>) -> Seq<u8>
    decreases s.len(),
{
    if s.len() == 0 {
        Seq::<u8>::empty()
    } else {
        (if s[0] == 34 || s[0] == 92 {
            seq![92u8, s[0]]
        } else {
            seq![s[0]]
        }) + spec_esc(s.skip(1))
    }
}

pub proof fn lemma_esc_concat(a: Seq<u8>, b: Seq<u8>)
    ensures
        spec_esc(a + b) == spec_esc(a) + spec_esc(b),
    decreases a.len(),
{
    if a.len() == 0 {
        assert(a + b =~= b);
        assert(spec_esc(a) + spec_esc(b) =~= spec_esc(b));
    } else {
        lemma_esc_concat(a.skip(1), b);
        assert((a + b).skip(1) =~= a.skip(1) + b);
        assert(spec_esc(a + b) =~= spec_esc(a) + spec_esc(b));
    }
}

/// An encoded string: quote, escaped body, quote.
pub open spec fn spec_enc_str(s: Seq<u8>) -> Seq<u8> {
    seq![34u8] + spec_esc(s) + seq![34u8]
}

/// Encodes a string, refusing control bytes.
pub fn enc_json_str(s: &[u8]) -> (r: Option<Vec<u8>>)
    ensures
        match r {
            Some(v) => str_wf(s@) && v@ == spec_enc_str(s@),
            None => !str_wf(s@),
        },
{
    let mut out: Vec<u8> = Vec::new();
    out.push(34);
    let mut i: usize = 0;
    proof {
        assert(s@.take(0) =~= Seq::<u8>::empty());
        assert(out@ =~= seq![34u8] + spec_esc(s@.take(0)));
    }
    while i < s.len()
        invariant
            i <= s.len(),
            str_wf(s@.take(i as int)),
            out@ == seq![34u8] + spec_esc(s@.take(i as int)),
        decreases s.len() - i,
    {
        let b = s[i];
        if b < 32 {
            return None;
        }
        proof {
            let head = s@.take(i as int);
            assert(s@.take(i as int + 1) =~= head + seq![b]);
            lemma_esc_concat(head, seq![b]);
            assert(seq![b][0] == b);
            assert(seq![b].skip(1) =~= Seq::<u8>::empty());
            assert(spec_esc(Seq::<u8>::empty()) == Seq::<u8>::empty());
            assert(str_wf(s@.take(i as int + 1)));
        }
        if b == 34 || b == 92 {
            out.push(92);
            out.push(b);
            proof {
                assert(spec_esc(seq![b]) =~= seq![92u8, b]);
            }
        } else {
            out.push(b);
            proof {
                assert(spec_esc(seq![b]) =~= seq![b]);
            }
        }
        proof {
            assert(out@ =~= seq![34u8] + spec_esc(s@.take(i as int + 1)));
        }
        i += 1;
    }
    out.push(34);
    proof {
        assert(s@.take(i as int) =~= s@);
        assert(out@ =~= spec_enc_str(s@));
    }
    Some(out)
}

/// The comma-joined encoded pairs of an object body.
pub open spec fn spec_enc_pair(p: (Seq<u8>, Seq<u8>)) -> Seq<u8> {
    spec_enc_str(p.0) + seq![58u8] + spec_enc_str(p.1)
}

pub open spec fn spec_enc_obj_items(ps: Seq<(Seq<u8>, Seq<u8>)>) -> Seq<u8>
    decreases ps.len(),
{
    if ps.len() == 0 {
        Seq::<u8>::empty()
    } else if ps.len() == 1 {
        spec_enc_pair(ps[0])
    } else {
        spec_enc_pair(ps[0]) + seq![44u8] + spec_enc_obj_items(ps.skip(1))
    }
}

/// An encoded flat object.
pub open spec fn spec_enc_obj(ps: Seq<(Seq<u8>, Seq<u8>)>) -> Seq<u8> {
    seq![123u8] + spec_enc_obj_items(ps) + seq![125u8]
}

proof fn lemma_enc_obj_items_snoc(ps: Seq<(Seq<u8>, Seq<u8>)>, p: (Seq<u8>, Seq<u8>))
    requires
        ps.len() >= 1,
    ensures
        spec_enc_obj_items(ps.push(p)) == spec_enc_obj_items(ps) + seq![44u8] + spec_enc_pair(p),
    decreases ps.len(),
{
    assert(ps.push(p)[0] == ps[0]);
    if ps.len() == 1 {
        assert(ps.push(p).skip(1) =~~= seq![p]);
        assert(seq![p][0] == p);
        assert(spec_enc_obj_items(seq![p]) == spec_enc_pair(p));
        assert(spec_enc_obj_items(ps) == spec_enc_pair(ps[0]));
        assert(spec_enc_obj_items(ps.push(p)) =~= spec_enc_pair(ps[0]) + seq![44u8]
            + spec_enc_pair(p));
    } else {
        lemma_enc_obj_items_snoc(ps.skip(1), p);
        assert(ps.push(p).skip(1) =~~= ps.skip(1).push(p));
        assert(spec_enc_obj_items(ps.push(p)) =~= spec_enc_obj_items(ps) + seq![44u8]
            + spec_enc_pair(p));
    }
}

/// Encodes a flat string object, refusing control bytes anywhere.
#[verifier::rlimit(60)]
pub fn enc_json_obj(ps: &Vec<(Vec<u8>, Vec<u8>)>) -> (r: Option<Vec<u8>>)
    ensures
        match r {
            Some(v) => obj_wf(pair_views(ps@)) && v@ == spec_enc_obj(pair_views(ps@)),
            None => !obj_wf(pair_views(ps@)),
        },
{
    let ghost pv = pair_views(ps@);
    let mut out: Vec<u8> = Vec::new();
    out.push(123);
    let mut i: usize = 0;
    proof {
        assert(pv.take(0) =~~= Seq::<(Seq<u8>, Seq<u8>)>::empty());
        assert(out@ =~= seq![123u8] + spec_enc_obj_items(pv.take(0)));
    }
    while i < ps.len()
        invariant
            i <= ps.len(),
            pv == pair_views(ps@),
            obj_wf(pv.take(i as int)),
            out@ == seq![123u8] + spec_enc_obj_items(pv.take(i as int)),
        decreases ps.len() - i,
    {
        proof {
            assert(pv[i as int] == (ps@[i as int].0@, ps@[i as int].1@));
        }
        if i > 0 {
            out.push(44);
        }
        let ek = match enc_json_str(ps[i].0.as_slice()) {
            Some(v) => v,
            None => {
                return None;
            },
        };
        let ev = match enc_json_str(ps[i].1.as_slice()) {
            Some(v) => v,
            None => {
                return None;
            },
        };
        let mut j: usize = 0;
        while j < ek.len()
            invariant
                j <= ek.len(),
                out@ == if i > 0 {
                    seq![123u8] + spec_enc_obj_items(pv.take(i as int)) + seq![44u8] + ek@.take(
                        j as int,
                    )
                } else {
                    seq![123u8] + spec_enc_obj_items(pv.take(i as int)) + ek@.take(j as int)
                },
            decreases ek.len() - j,
        {
            out.push(ek[j]);
            proof {
                assert(ek@.take(j as int + 1) =~= ek@.take(j as int) + seq![ek@[j as int]]);
            }
            j += 1;
        }
        out.push(58);
        let mut k: usize = 0;
        while k < ev.len()
            invariant
                k <= ev.len(),
                out@ == if i > 0 {
                    seq![123u8] + spec_enc_obj_items(pv.take(i as int)) + seq![44u8] + ek@
                        + seq![58u8] + ev@.take(k as int)
                } else {
                    seq![123u8] + spec_enc_obj_items(pv.take(i as int)) + ek@ + seq![58u8]
                        + ev@.take(k as int)
                },
            decreases ev.len() - k,
        {
            out.push(ev[k]);
            proof {
                assert(ev@.take(k as int + 1) =~= ev@.take(k as int) + seq![ev@[k as int]]);
            }
            k += 1;
        }
        proof {
            assert(ek@.take(ek@.len() as int) =~= ek@);
            assert(ev@.take(ev@.len() as int) =~= ev@);
            let p = pv[i as int];
            assert(ek@ + seq![58u8] + ev@ =~= spec_enc_pair(p));
            if i > 0 {
                lemma_enc_obj_items_snoc(pv.take(i as int), p);
            }
            assert(pv.take(i as int).push(p) =~~= pv.take(i as int + 1));
            assert(out@ =~= seq![123u8] + spec_enc_obj_items(pv.take(i as int + 1)));
            assert(obj_wf(pv.take(i as int + 1)));
        }
        i += 1;
    }
    out.push(125);
    proof {
        assert(pv.take(i as int) =~~= pv);
        assert(out@ =~= spec_enc_obj(pv));
    }
    Some(out)
}

/// A whitespace byte between tokens.
pub open spec fn is_ws(b: u8) -> bool {
    b == 32 || b == 9 || b == 10 || b == 13
}

/// The input with its leading whitespace dropped.
pub open spec fn sp_skip_ws(s: Seq<u8>) -> Seq<u8>
    decreases s.len(),
{
    if s.len() > 0 && is_ws(s[0]) {
        sp_skip_ws(s.skip(1))
    } else {
        s
    }
}

fn skip_ws(s: &[u8], i: usize) -> (j: usize)
    requires
        i <= s.len(),
    ensures
        i <= j <= s.len(),
        s@.skip(j as int) == sp_skip_ws(s@.skip(i as int)),
{
    let mut j: usize = i;
    while j < s.len() && (s[j] == 32 || s[j] == 9 || s[j] == 10 || s[j] == 13)
        invariant
            i <= j <= s.len(),
            sp_skip_ws(s@.skip(i as int)) == sp_skip_ws(s@.skip(j as int)),
        decreases s.len() - j,
    {
        proof {
            assert(s@.skip(j as int)[0] == s@[j as int]);
            assert(s@.skip(j as int).skip(1) =~= s@.skip(j as int + 1));
        }
        j += 1;
    }
    proof {
        if j < s.len() {
            assert(s@.skip(j as int)[0] == s@[j as int]);
        }
        assert(sp_skip_ws(s@.skip(j as int)) == s@.skip(j as int));
    }
    j
}

/// The body of a string after its opening quote: the content up to the
/// closing quote, escapes resolved, plus the rest of the input. Fails on a
/// raw control byte, a bad escape, or a missing closing quote.
pub open spec fn sp_str_body(s: Seq<u8>) -> Option<(Seq<u8>, Seq<u8>)>
    decreases s.len(),
{
    if s.len() == 0 {
        None
    } else if s[0] == 34 {
        Some((Seq::<u8>::empty(), s.skip(1)))
    } else if s[0] == 92 {
        if s.len() >= 2 && (s[1] == 34 || s[1] == 92) {
            match sp_str_body(s.skip(2)) {
                Some(cr) => Some((seq![s[1]] + cr.0, cr.1)),
                None => None,
            }
        } else {
            None
        }
    } else if s[0] >= 32 {
        match sp_str_body(s.skip(1)) {
            Some(cr) => Some((seq![s[0]] + cr.0, cr.1)),
            None => None,
        }
    } else {
        None
    }
}

fn parse_str_body(s: &[u8], i: usize) -> (r: Option<(Vec<u8>, usize)>)
    requires
        i <= s.len(),
    ensures
        match r {
            Some(cj) => cj.1 <= s.len() && sp_str_body(s@.skip(i as int)) == Some(
                (cj.0@, s@.skip(cj.1 as int)),
            ),
            None => sp_str_body(s@.skip(i as int)) is None,
        },
{
    let mut acc: Vec<u8> = Vec::new();
    let mut j: usize = i;
    while j < s.len()
        invariant
            i <= j <= s.len(),
            match sp_str_body(s@.skip(j as int)) {
                Some(cr) => sp_str_body(s@.skip(i as int)) == Some((acc@ + cr.0, cr.1)),
                None => sp_str_body(s@.skip(i as int)) is None,
            },
        decreases s.len() - j,
    {
        let ghost pre = s@.skip(j as int);
        proof {
            assert(pre[0] == s@[j as int]);
        }
        let b = s[j];
        if b == 34 {
            proof {
                assert(pre.skip(1) =~= s@.skip(j as int + 1));
                assert(sp_str_body(pre) == Some((Seq::<u8>::empty(), s@.skip(j as int + 1))));
                assert(acc@ + Seq::<u8>::empty() =~= acc@);
            }
            return Some((acc, j + 1));
        } else if b == 92 {
            if j + 1 < s.len() && (s[j + 1] == 34 || s[j + 1] == 92) {
                let e = s[j + 1];
                proof {
                    assert(pre.len() >= 2);
                    assert(pre[1] == s@[j as int + 1]);
                    assert(pre.skip(2) =~= s@.skip(j as int + 2));
                    if let Some(cr) = sp_str_body(s@.skip(j as int + 2)) {
                        assert(acc@ + (seq![e] + cr.0) =~= (acc@ + seq![e]) + cr.0);
                    }
                }
                acc.push(e);
                j += 2;
            } else {
                proof {
                    assert(pre.len() < 2 || !(pre[1] == 34 || pre[1] == 92)) by {
                        if j + 1 < s.len() {
                            assert(pre[1] == s@[j as int + 1]);
                        }
                    }
                }
                return None;
            }
        } else if b >= 32 {
            proof {
                assert(pre.skip(1) =~= s@.skip(j as int + 1));
                if let Some(cr) = sp_str_body(s@.skip(j as int + 1)) {
                    assert(acc@ + (seq![b] + cr.0) =~= (acc@ + seq![b]) + cr.0);
                }
            }
            acc.push(b);
            j += 1;
        } else {
            return None;
        }
    }
    proof {
        assert(s@.skip(j as int).len() == 0);
    }
    None
}

/// The pairs of an object, from the first key's quote through the closing
/// brace, plus the rest of the input.
pub open spec fn sp_obj_items(s: Seq<u8>) -> Option<(Seq<(Seq<u8>, Seq<u8>)>, Seq<u8>)>
    decreases s.len(),
{
    if s.len() == 0 || s[0] != 34 {
        None
    } else {
        match sp_str_body(s.skip(1)) {
            None => None,
            Some(kr) => {
                let r2 = sp_skip_ws(kr.1);
                if r2.len() == 0 || r2[0] != 58 {
                    None
                } else {
                    let r3 = sp_skip_ws(r2.skip(1));
                    if r3.len() == 0 || r3[0] != 34 {
                        None
                    } else {
                        match sp_str_body(r3.skip(1)) {
                            None => None,
                            Some(vr) => {
                                let r5 = sp_skip_ws(vr.1);
                                if r5.len() > 0 && r5[0] == 44 {
                                    let r6 = sp_skip_ws(r5.skip(1));
                                    if r6.len() < s.len() {
                                        match sp_obj_items(r6) {
                                            Some(pr) => Some((seq![(kr.0, vr.0)] + pr.0, pr.1)),
                                            None => None,
                                        }
                                    } else {
                                        None
                                    }
                                } else if r5.len() > 0 && r5[0] == 125 {
                                    Some((seq![(kr.0, vr.0)], r5.skip(1)))
                                } else {
                                    None
                                }
                            },
                        }
                    }
                }
            },
        }
    }
}

/// A complete flat string object, whitespace tolerated between tokens,
/// nothing but whitespace after it.
pub open spec fn sp_obj(s: Seq<u8>) -> Option<Seq<(Seq<u8>, Seq<u8>)>> {
    let t0 = sp_skip_ws(s);
    if t0.len() == 0 || t0[0] != 123 {
        None
    } else {
        let t1 = sp_skip_ws(t0.skip(1));
        if t1.len() > 0 && t1[0] == 125 {
            if sp_skip_ws(t1.skip(1)).len() == 0 {
                Some(Seq::<(Seq<u8>, Seq<u8>)>::empty())
            } else {
                None
            }
        } else {
            match sp_obj_items(t1) {
                None => None,
                Some(pr) => if sp_skip_ws(pr.1).len() == 0 {
                    Some(pr.0)
                } else {
                    None
                },
            }
        }
    }
}

fn parse_obj_items(s: &[u8], i: usize) -> (r: Option<(Vec<(Vec<u8>, Vec<u8>)>, usize)>)
    requires
        i <= s.len(),
    ensures
        match r {
            Some(pj) => pj.1 <= s.len() && sp_obj_items(s@.skip(i as int)) == Some(
                (pair_views(pj.0@), s@.skip(pj.1 as int)),
            ),
            None => sp_obj_items(s@.skip(i as int)) is None,
        },
    decreases s.len() - i,
{
    let ghost s0 = s@.skip(i as int);
    if !(i < s.len() && s[i] == 34) {
        proof {
            if i < s.len() {
                assert(s0[0] == s@[i as int]);
            }
        }
        return None;
    }
    proof {
        assert(s0[0] == 34);
        assert(s0.skip(1) =~= s@.skip(i as int + 1));
    }
    let (k, j1) = match parse_str_body(s, i + 1) {
        Some(kj) => kj,
        None => {
            return None;
        },
    };
    let j2 = skip_ws(s, j1);
    if !(j2 < s.len() && s[j2] == 58) {
        proof {
            if j2 < s.len() {
                assert(s@.skip(j2 as int)[0] == s@[j2 as int]);
            }
        }
        return None;
    }
    proof {
        assert(s@.skip(j2 as int)[0] == 58);
        assert(s@.skip(j2 as int).skip(1) =~= s@.skip(j2 as int + 1));
    }
    let j3 = skip_ws(s, j2 + 1);
    if !(j3 < s.len() && s[j3] == 34) {
        proof {
            if j3 < s.len() {
                assert(s@.skip(j3 as int)[0] == s@[j3 as int]);
            }
        }
        return None;
    }
    proof {
        assert(s@.skip(j3 as int)[0] == 34);
        assert(s@.skip(j3 as int).skip(1) =~= s@.skip(j3 as int + 1));
    }
    let (v, j4) = match parse_str_body(s, j3 + 1) {
        Some(vj) => vj,
        None => {
            return None;
        },
    };
    let j5 = skip_ws(s, j4);
    if j5 < s.len() && s[j5] == 44 {
        proof {
            assert(s@.skip(j5 as int)[0] == s@[j5 as int]);
            assert(s@.skip(j5 as int).skip(1) =~= s@.skip(j5 as int + 1));
        }
        let j6 = skip_ws(s, j5 + 1);
        if j6 > i {
            match parse_obj_items(s, j6) {
                Some((ps, j7)) => {
                    let mut ps = ps;
                    let ghost tail = ps@;
                    ps.insert(0, (k, v));
                    proof {
                        assert(ps@ =~= seq![(k, v)].add(tail));
                        assert(pair_views(ps@) =~~= seq![(k@, v@)] + pair_views(tail));
                    }
                    Some((ps, j7))
                },
                None => None,
            }
        } else {
            None
        }
    } else if j5 < s.len() && s[j5] == 125 {
        proof {
            assert(s@.skip(j5 as int)[0] == 125);
            assert(s@.skip(j5 as int).skip(1) =~= s@.skip(j5 as int + 1));
        }
        let mut ps: Vec<(Vec<u8>, Vec<u8>)> = Vec::new();
        ps.push((k, v));
        proof {
            assert(pair_views(ps@) =~~= seq![(k@, v@)]);
        }
        Some((ps, j5 + 1))
    } else {
        proof {
            if j5 < s.len() {
                assert(s@.skip(j5 as int)[0] == s@[j5 as int]);
            }
        }
        None
    }
}

/// Parses a flat string object, the shape a JSON-extracting target of this
/// layer takes; anything else — other syntax, other value shapes — is
/// `MalformedJson`.
pub fn parse_json_obj(b: &[u8]) -> (r: Result<Vec<(Vec<u8>, Vec<u8>)>, ExtractError>)
    ensures
        match r {
            Ok(ps) => sp_obj(b@) == Some(pair_views(ps@)),
            Err(e) => e == ExtractError::MalformedJson && sp_obj(b@) is None,
        },
{
    proof {
        assert(b@.skip(0) == b@);
    }
    let t0 = skip_ws(b, 0);
    if !(t0 < b.len() && b[t0] == 123) {
        proof {
            if t0 < b.len() {
                assert(b@.skip(t0 as int)[0] == b@[t0 as int]);
            }
        }
        return Err(ExtractError::MalformedJson);
    }
    proof {
        assert(b@.skip(t0 as int)[0] == 123);
        assert(b@.skip(t0 as int).skip(1) =~= b@.skip(t0 as int + 1));
    }
    let t1 = skip_ws(b, t0 + 1);
    if t1 < b.len() && b[t1] == 125 {
        proof {
            assert(b@.skip(t1 as int)[0] == 125);
            assert(b@.skip(t1 as int).skip(1) =~= b@.skip(t1 as int + 1));
        }
        let t2 = skip_ws(b, t1 + 1);
        if t2 == b.len() {
            let ps: Vec<(Vec<u8>, Vec<u8>)> = Vec::new();
            proof {
                assert(b@.skip(t2 as int).len() == 0);
                assert(pair_views(ps@) =~~= Seq::<(Seq<u8>, Seq<u8>)>::empty());
            }
            return Ok(ps);
        } else {
            proof {
                assert(b@.skip(t2 as int).len() > 0);
            }
            return Err(ExtractError::MalformedJson);
        }
    }
    proof {
        if t1 < b.len() {
            assert(b@.skip(t1 as int)[0] == b@[t1 as int]);
        }
    }
    match parse_obj_items(b, t1) {
        None => Err(ExtractError::MalformedJson),
        Some((ps, j)) => {
            let t3 = skip_ws(b, j);
            if t3 == b.len() {
                proof {
                    assert(b@.skip(t3 as int).len() == 0);
                }
                Ok(ps)
            } else {
                proof {
                    assert(b@.skip(t3 as int).len() > 0);
                }
                Err(ExtractError::MalformedJson)
            }
        },
    }
}

/// The comma-joined numerals of an array body.
pub open spec fn spec_enc_arr_items(xs: Seq<u64>) -> Seq<u8>
    decreases xs.len(),
{
    if xs.len() == 0 {
        Seq::<u8>::empty()
    } else if xs.len() == 1 {
        spec_digits(xs[0] as nat)
    } else {
        spec_digits(xs[0] as nat) + seq![44u8] + spec_enc_arr_items(xs.skip(1))
    }
}

/// An encoded array of unsigned integers.
pub open spec fn spec_enc_arr(xs: Seq<u64>) -> Seq<u8> {
    seq![91u8] + spec_enc_arr_items(xs) + seq![93u8]
}

proof fn lemma_enc_arr_items_snoc(xs: Seq<u64>, x: u64)
    requires
        xs.len() >= 1,
    ensures
        spec_enc_arr_items(xs.push(x)) == spec_enc_arr_items(xs) + seq![44u8] + spec_digits(
            x as nat,
        ),
    decreases xs.len(),
{
    assert(xs.push(x)[0] == xs[0]);
    if xs.len() == 1 {
        assert(xs.push(x).skip(1) =~= seq![x]);
        assert(seq![x][0] == x);
        assert(spec_enc_arr_items(seq![x]) == spec_digits(x as nat));
        assert(spec_enc_arr_items(xs) == spec_digits(xs[0] as nat));
        assert(spec_enc_arr_items(xs.push(x)) =~= spec_enc_arr_items(xs) + seq![44u8]
            + spec_digits(x as nat));
    } else {
        lemma_enc_arr_items_snoc(xs.skip(1), x);
        assert(xs.push(x).skip(1) =~= xs.skip(1).push(x));
        assert(spec_enc_arr_items(xs.push(x)) =~= spec_enc_arr_items(xs) + seq![44u8]
            + spec_digits(x as nat));
    }
}

/// Encodes an array of unsigned integers; this direction cannot fail.
pub fn enc_json_arr(xs: &Vec<u64>) -> (r: Vec<u8>)
    ensures
        r@ == spec_enc_arr(xs@),
{
    let mut out: Vec<u8> = Vec::new();
    out.push(91);
    let mut i: usize = 0;
    proof {
        assert(xs@.take(0) =~= Seq::<u64>::empty());
        assert(out@ =~= seq![91u8] + spec_enc_arr_items(xs@.take(0)));
    }
    while i < xs.len()
        invariant
            i <= xs.len(),
            out@ == seq![91u8] + spec_enc_arr_items(xs@.take(i as int)),
        decreases xs.len() - i,
    {
        if i > 0 {
            out.push(44);
        }
        let d = fmt_u64(xs[i]);
        let mut j: usize = 0;
        while j < d.len()
            invariant
                j <= d.len(),
                out@ == if i > 0 {
                    seq![91u8] + spec_enc_arr_items(xs@.take(i as int)) + seq![44u8] + d@.take(
                        j as int,
                    )
                } else {
                    seq![91u8] + spec_enc_arr_items(xs@.take(i as int)) + d@.take(j as int)
                },
            decreases d.len() - j,
        {
            out.push(d[j]);
            proof {
                assert(d@.take(j as int + 1) =~= d@.take(j as int) + seq![d@[j as int]]);
            }
            j += 1;
        }
        proof {
            assert(d@.take(d@.len() as int) =~= d@);
            if i > 0 {
                lemma_enc_arr_items_snoc(xs@.take(i as int), xs@[i as int]);
            }
            assert(xs@.take(i as int).push(xs@[i as int]) =~= xs@.take(i as int + 1));
            assert(out@ =~= seq![91u8] + spec_enc_arr_items(xs@.take(i as int + 1)));
        }
        i += 1;
    }
    out.push(93);
    proof {
        assert(xs@.take(i as int) =~= xs@);
        assert(out@ =~= spec_enc_arr(xs@));
    }
    out
}

/// The maximal digit prefix of the input, and what follows it.
pub open spec fn digit_prefix(s: Seq<u8>) -> (Seq<u8>, Seq<u8>)
    decreases s.len(),
{
    if s.len() > 0 && is_digit(s[0]) {
        let r = digit_prefix(s.skip(1));
        (seq![s[0]] + r.0, r.1)
    } else {
        (Seq::<u8>::empty(), s)
    }
}

fn take_digits(s: &[u8], i: usize) -> (j: usize)
    requires
        i <= s.len(),
    ensures
        i <= j <= s.len(),
        digit_prefix(s@.skip(i as int)).0 == s@.subrange(i as int, j as int),
        digit_prefix(s@.skip(i as int)).1 == s@.skip(j as int),
{
    let mut j: usize = i;
    while j < s.len() && 48 <= s[j] && s[j] <= 57
        invariant
            i <= j <= s.len(),
            forall|k: int| i <= k < j ==> is_digit(#[trigger] s@[k]),
        decreases s.len() - j,
    {
        j += 1;
    }
    proof {
        lemma_digit_prefix_at(s@, i as int, j as int);
    }
    j
}

proof fn lemma_digit_prefix_digits(s: Seq<u8>)
    ensures
        all_digits(digit_prefix(s).0),
    decreases s.len(),
{
    if s.len() > 0 && is_digit(s[0]) {
        lemma_digit_prefix_digits(s.skip(1));
        let r = digit_prefix(s.skip(1));
        assert forall|i: int|
            0 <= i < digit_prefix(s).0.len() implies is_digit(#[trigger] digit_prefix(s).0[i]) by {
            if i > 0 {
                assert(digit_prefix(s).0[i] == r.0[i - 1]);
            }
        }
    }
}

proof fn lemma_digit_prefix_at(s: Seq<u8>, i: int, j: int)
    requires
        0 <= i <= j <= s.len(),
        forall|k: int| i <= k < j ==> is_digit(#[trigger] s[k]),
        j < s.len() ==> !is_digit(s[j]),
    ensures
        digit_prefix(s.skip(i)).0 == s.subrange(i, j),
        digit_prefix(s.skip(i)).1 == s.skip(j),
    decreases j - i,
{
    if i == j {
        assert(s.subrange(i, j) =~= Seq::<u8>::empty());
        if i < s.len() {
            assert(s.skip(i)[0] == s[i]);
        }
    } else {
        assert(s.skip(i)[0] == s[i]);
        assert(s.skip(i).skip(1) =~= s.skip(i + 1));
        lemma_digit_prefix_at(s, i + 1, j);
        assert(seq![s[i]] + s.subrange(i + 1, j) =~= s.subrange(i, j));
    }
}

/// The numbers of an array, from the first digit through the closing
/// bracket, plus the rest of the input.
pub open spec fn sp_arr_items(s: Seq<u8>) -> Option<(Seq<u64>, Seq<u8>)>
    decreases s.len(),
{
    let dp = digit_prefix(s);
    if dp.0.len() == 0 || spec_num(dp.0) > u64::MAX {
        None
    } else {
        let r2 = sp_skip_ws(dp.1);
        if r2.len() > 0 && r2[0] == 44 {
            let r3 = sp_skip_ws(r2.skip(1));
            if r3.len() < s.len() {
                match sp_arr_items(r3) {
                    Some(xr) => Some((seq![spec_num(dp.0) as u64] + xr.0, xr.1)),
                    None => None,
                }
            } else {
                None
            }
        } else if r2.len() > 0 && r2[0] == 93 {
            Some((seq![spec_num(dp.0) as u64], r2.skip(1)))
        } else {
            None
        }
    }
}

/// A complete array of unsigned integers, whitespace tolerated between
/// tokens, nothing but whitespace after it.
pub open spec fn sp_arr(s: Seq<u8>) -> Option<Seq<u64>> {
    let t0 = sp_skip_ws(s);
    if t0.len() == 0 || t0[0] != 91 {
        None
    } else {
        let t1 = sp_skip_ws(t0.skip(1));
        if t1.len() > 0 && t1[0] == 93 {
            if sp_skip_ws(t1.skip(1)).len() == 0 {
                Some(Seq::<u64>::empty())
            } else {
                None
            }
        } else {
            match sp_arr_items(t1) {
                None => None,
                Some(xr) => if sp_skip_ws(xr.1).len() == 0 {
                    Some(xr.0)
                } else {
                    None
                },
            }
        }
    }
}

fn parse_arr_items(s: &[u8], i: usize) -> (r: Option<(Vec<u64>, usize)>)
    requires
        i <= s.len(),
    ensures
        match r {
            Some(xj) => xj.1 <= s.len() && sp_arr_items(s@.skip(i as int)) == Some(
                (xj.0@, s@.skip(xj.1 as int)),
            ),
            None => sp_arr_items(s@.skip(i as int)) is None,
        },
    decreases s.len() - i,
{
    let j1 = take_digits(s, i);
    let ghost dp = digit_prefix(s@.skip(i as int));
    if j1 == i {
        proof {
            assert(dp.0 =~= Seq::<u8>::empty());
        }
        return None;
    }
    let n = match parse_u64(vstd::slice::slice_subrange(s, i, j1)) {
        Some(n) => n,
        None => {
            proof {
                assert(dp.0 == s@.subrange(i as int, j1 as int));
                assert(dp.0.len() > 0);
                lemma_digit_prefix_digits(s@.skip(i as int));
                assert(spec_num(dp.0) > u64::MAX);
            }
            return None;
        },
    };
    proof {
        assert(n as nat == spec_num(dp.0));
    }
    let j2 = skip_ws(s, j1);
    if j2 < s.len() && s[j2] == 44 {
        proof {
            assert(s@.skip(j2 as int)[0] == s@[j2 as int]);
            assert(s@.skip(j2 as int).skip(1) =~= s@.skip(j2 as int + 1));
        }
        let j3 = skip_ws(s, j2 + 1);
        if j3 > i {
            match parse_arr_items(s, j3) {
                Some((xs, j4)) => {
                    let mut xs = xs;
                    let ghost tail = xs@;
                    xs.insert(0, n);
                    proof {
                        assert(xs@ =~= seq![n] + tail);
                    }
                    Some((xs, j4))
                },
                None => None,
            }
        } else {
            None
        }
    } else if j2 < s.len() && s[j2] == 93 {
        proof {
            assert(s@.skip(j2 as int)[0] == 93);
            assert(s@.skip(j2 as int).skip(1) =~= s@.skip(j2 as int + 1));
        }
        let mut xs: Vec<u64> = Vec::new();
        xs.push(n);
        proof {
            assert(xs@ =~= seq![n]);
        }
        Some((xs, j2 + 1))
    } else {
        proof {
            if j2 < s.len() {
                assert(s@.skip(j2 as int)[0] == s@[j2 as int]);
            }
        }
        None
    }
}

/// Parses an array of unsigned integers; anything else is `MalformedJson`.
pub fn parse_json_arr(b: &[u8]) -> (r: Result<Vec<u64>, ExtractError>)
    ensures
        match r {
            Ok(xs) => sp_arr(b@) == Some(xs@),
            Err(e) => e == ExtractError::MalformedJson && sp_arr(b@) is None,
        },
{
    proof {
        assert(b@.skip(0) == b@);
    }
    let t0 = skip_ws(b, 0);
    if !(t0 < b.len() && b[t0] == 91) {
        proof {
            if t0 < b.len() {
                assert(b@.skip(t0 as int)[0] == b@[t0 as int]);
            }
        }
        return Err(ExtractError::MalformedJson);
    }
    proof {
        assert(b@.skip(t0 as int)[0] == 91);
        assert(b@.skip(t0 as int).skip(1) =~= b@.skip(t0 as int + 1));
    }
    let t1 = skip_ws(b, t0 + 1);
    if t1 < b.len() && b[t1] == 93 {
        proof {
            assert(b@.skip(t1 as int)[0] == 93);
            assert(b@.skip(t1 as int).skip(1) =~= b@.skip(t1 as int + 1));
        }
        let t2 = skip_ws(b, t1 + 1);
        if t2 == b.len() {
            let xs: Vec<u64> = Vec::new();
            proof {
                assert(b@.skip(t2 as int).len() == 0);
                assert(xs@ =~= Seq::<u64>::empty());
            }
            return Ok(xs);
        } else {
            proof {
                assert(b@.skip(t2 as int).len() > 0);
            }
            return Err(ExtractError::MalformedJson);
        }
    }
    proof {
        if t1 < b.len() {
            assert(b@.skip(t1 as int)[0] == b@[t1 as int]);
        }
    }
    match parse_arr_items(b, t1) {
        None => Err(ExtractError::MalformedJson),
        Some((xs, j)) => {
            let t3 = skip_ws(b, j);
            if t3 == b.len() {
                proof {
                    assert(b@.skip(t3 as int).len() == 0);
                }
                Ok(xs)
            } else {
                proof {
                    assert(b@.skip(t3 as int).len() > 0);
                }
                Err(ExtractError::MalformedJson)
            }
        },
    }
}

proof fn lemma_skip_ws_id(s: Seq<u8>)
    requires
        s.len() == 0 || !is_ws(s[0]),
    ensures
        sp_skip_ws(s) == s,
{
}

proof fn lemma_str_body_roundtrip(s: Seq<u8>, rest: Seq<u8>)
    requires
        str_wf(s),
    ensures
        sp_str_body(spec_esc(s) + seq![34u8] + rest) == Some((s, rest)),
    decreases s.len(),
{
    let t = spec_esc(s) + seq![34u8] + rest;
    if s.len() == 0 {
        assert(spec_esc(s) =~= Seq::<u8>::empty());
        assert(t =~= seq![34u8] + rest);
        assert(t[0] == 34);
        assert(t.skip(1) =~= rest);
    } else {
        let b = s[0];
        assert(b >= 32);
        assert(str_wf(s.skip(1)));
        lemma_str_body_roundtrip(s.skip(1), rest);
        if b == 34 || b == 92 {
            assert(spec_esc(s) =~= seq![92u8, b] + spec_esc(s.skip(1)));
            assert(t[0] == 92);
            assert(t.len() >= 2);
            assert(t[1] == b);
            assert(t.skip(2) =~= spec_esc(s.skip(1)) + seq![34u8] + rest);
            assert(seq![b] + s.skip(1) =~= s);
        } else {
            assert(spec_esc(s) =~= seq![b] + spec_esc(s.skip(1)));
            assert(t[0] == b);
            assert(t.skip(1) =~= spec_esc(s.skip(1)) + seq![34u8] + rest);
            assert(seq![b] + s.skip(1) =~= s);
        }
    }
}

proof fn lemma_obj_items_roundtrip(ps: Seq<(Seq<u8>, Seq<u8>)>, rest: Seq<u8>)
    requires
        obj_wf(ps),
        ps.len() >= 1,
    ensures
        sp_obj_items(spec_enc_obj_items(ps) + seq![125u8] + rest) == Some((ps, rest)),
    decreases ps.len(),
{
    let t = spec_enc_obj_items(ps) + seq![125u8] + rest;
    let k = ps[0].0;
    let v = ps[0].1;
    assert(str_wf(k) && str_wf(v));
    if ps.len() == 1 {
        let rest2 = seq![125u8] + rest;
        let rest1 = seq![58u8] + (seq![34u8] + spec_esc(v) + seq![34u8]) + rest2;
        assert(t =~= seq![34u8] + (spec_esc(k) + seq![34u8] + rest1));
        assert(t[0] == 34);
        assert(t.skip(1) =~= spec_esc(k) + seq![34u8] + rest1);
        lemma_str_body_roundtrip(k, rest1);
        lemma_skip_ws_id(rest1);
        assert(rest1[0] == 58);
        assert(rest1.skip(1) =~= seq![34u8] + (spec_esc(v) + seq![34u8] + rest2));
        lemma_skip_ws_id(rest1.skip(1));
        assert(rest1.skip(1)[0] == 34);
        assert(rest1.skip(1).skip(1) =~= spec_esc(v) + seq![34u8] + rest2);
        lemma_str_body_roundtrip(v, rest2);
        lemma_skip_ws_id(rest2);
        assert(rest2[0] == 125);
        assert(rest2.skip(1) =~= rest);
        assert((ps[0].0, ps[0].1) == ps[0]);
        assert(seq![(k, v)] =~~= ps);
    } else {
        let tail = spec_enc_obj_items(ps.skip(1)) + seq![125u8] + rest;
        let rest2 = seq![44u8] + tail;
        let rest1 = seq![58u8] + (seq![34u8] + spec_esc(v) + seq![34u8]) + rest2;
        assert(t =~= seq![34u8] + (spec_esc(k) + seq![34u8] + rest1));
        assert(t[0] == 34);
        assert(t.skip(1) =~= spec_esc(k) + seq![34u8] + rest1);
        lemma_str_body_roundtrip(k, rest1);
        lemma_skip_ws_id(rest1);
        assert(rest1[0] == 58);
        assert(rest1.skip(1) =~= seq![34u8] + (spec_esc(v) + seq![34u8] + rest2));
        lemma_skip_ws_id(rest1.skip(1));
        assert(rest1.skip(1)[0] == 34);
        assert(rest1.skip(1).skip(1) =~= spec_esc(v) + seq![34u8] + rest2);
        lemma_str_body_roundtrip(v, rest2);
        lemma_skip_ws_id(rest2);
        assert(rest2[0] == 44);
        assert(rest2[0] != 125);
        assert(rest2.skip(1) =~= tail);
        // the next pair opens with a quote, so no whitespace is skipped
        let p1 = ps.skip(1)[0];
        assert(spec_enc_obj_items(ps.skip(1))[0] == 34) by {
            assert(spec_enc_pair(p1)[0] == 34);
        }
        assert(tail[0] == 34);
        lemma_skip_ws_id(tail);
        assert(tail.len() < t.len()) by {
            assert(spec_enc_pair(ps[0]).len() >= 5);
        }
        assert(obj_wf(ps.skip(1))) by {
            assert(forall|i: int|
                0 <= i < ps.skip(1).len() ==> ps.skip(1)[i] == ps[i + 1]);
        }
        lemma_obj_items_roundtrip(ps.skip(1), rest);
        assert((ps[0].0, ps[0].1) == ps[0]);
        assert(seq![(k, v)] + ps.skip(1) =~~= ps);
    }
}

/// Parsing an encoded flat object gives the pairs back: the encoder and the
/// body extractor's parser are inverse on every object whose strings carry
/// no raw control bytes.
pub proof fn lemma_obj_roundtrip(ps: Seq<(Seq<u8>, Seq<u8>)>)
    requires
        obj_wf(ps),
    ensures
        sp_obj(spec_enc_obj(ps)) == Some(ps),
{
    let t = spec_enc_obj(ps);
    assert(t[0] == 123);
    lemma_skip_ws_id(t);
    if ps.len() == 0 {
        assert(spec_enc_obj_items(ps) =~= Seq::<u8>::empty());
        assert(t.skip(1) =~= seq![125u8]);
        lemma_skip_ws_id(t.skip(1));
        assert(t.skip(1)[0] == 125);
        assert(t.skip(1).skip(1) =~= Seq::<u8>::empty());
        assert(sp_skip_ws(Seq::<u8>::empty()).len() == 0);
        assert(ps =~~= Seq::<(Seq<u8>, Seq<u8>)>::empty());
    } else {
        let body = spec_enc_obj_items(ps) + seq![125u8] + Seq::<u8>::empty();
        assert(t.skip(1) =~= body);
        assert(spec_enc_obj_items(ps)[0] == 34) by {
            assert(spec_enc_pair(ps[0])[0] == 34);
        }
        assert(body[0] == 34);
        lemma_skip_ws_id(body);
        lemma_obj_items_roundtrip(ps, Seq::<u8>::empty());
        assert(sp_skip_ws(Seq::<u8>::empty()).len() == 0);
    }
}

proof fn lemma_digit_prefix_concat(ds: Seq<u8>, rest: Seq<u8>)
    requires
        all_digits(ds),
        rest.len() > 0 ==> !is_digit(rest[0]),
    ensures
        digit_prefix(ds + rest) == (ds, rest),
    decreases ds.len(),
{
    if ds.len() == 0 {
        assert(ds + rest =~= rest);
        assert(digit_prefix(rest).0 =~= Seq::<u8>::empty());
        assert(ds =~= Seq::<u8>::empty());
    } else {
        assert((ds + rest)[0] == ds[0]);
        assert((ds + rest).skip(1) =~= ds.skip(1) + rest);
        assert(all_digits(ds.skip(1)));
        lemma_digit_prefix_concat(ds.skip(1), rest);
        assert(seq![ds[0]] + ds.skip(1) =~= ds);
    }
}

proof fn lemma_arr_items_roundtrip(xs: Seq<u64>, rest: Seq<u8>)
    requires
        xs.len() >= 1,
    ensures
        sp_arr_items(spec_enc_arr_items(xs) + seq![93u8] + rest) == Some((xs, rest)),
    decreases xs.len(),
{
    let t = spec_enc_arr_items(xs) + seq![93u8] + rest;
    let d0 = spec_digits(xs[0] as nat);
    crate::num::lemma_digits_num(xs[0] as nat);
    if xs.len() == 1 {
        let rest2 = seq![93u8] + rest;
        assert(t =~= d0 + rest2);
        assert(!is_digit(rest2[0]));
        lemma_digit_prefix_concat(d0, rest2);
        assert(spec_num(d0) == xs[0] as nat);
        lemma_skip_ws_id(rest2);
        assert(rest2[0] == 93);
        assert(rest2.skip(1) =~= rest);
        assert(seq![spec_num(d0) as u64] =~= xs);
    } else {
        let tail = spec_enc_arr_items(xs.skip(1)) + seq![93u8] + rest;
        let rest2 = seq![44u8] + tail;
        assert(t =~= d0 + rest2);
        assert(!is_digit(rest2[0]));
        lemma_digit_prefix_concat(d0, rest2);
        assert(spec_num(d0) == xs[0] as nat);
        lemma_skip_ws_id(rest2);
        assert(rest2[0] == 44);
        assert(rest2[0] != 93);
        assert(rest2.skip(1) =~= tail);
        let x1 = xs.skip(1)[0];
        crate::num::lemma_digits_num(x1 as nat);
        assert(spec_enc_arr_items(xs.skip(1))[0] == spec_digits(x1 as nat)[0]);
        assert(is_digit(tail[0]));
        assert(!is_ws(tail[0]));
        lemma_skip_ws_id(tail);
        assert(tail.len() < t.len()) by {
            assert(d0.len() >= 1);
        }
        lemma_arr_items_roundtrip(xs.skip(1), rest);
        assert(seq![spec_num(d0) as u64] + xs.skip(1) =~= xs);
    }
}

/// Parsing an encoded integer array gives the numbers back.
pub proof fn lemma_arr_roundtrip(xs: Seq<u64>)
    ensures
        sp_arr(spec_enc_arr(xs)) == Some(xs),
{
    let t = spec_enc_arr(xs);
    assert(t[0] == 91);
    lemma_skip_ws_id(t);
    if xs.len() == 0 {
        assert(spec_enc_arr_items(xs) =~= Seq::<u8>::empty());
        assert(t.skip(1) =~= seq![93u8]);
        lemma_skip_ws_id(t.skip(1));
        assert(t.skip(1)[0] == 93);
        assert(t.skip(1).skip(1) =~= Seq::<u8>::empty());
        assert(sp_skip_ws(Seq::<u8>::empty()).len() == 0);
        assert(xs =~= Seq::<u64>::empty());
    } else {
        let body = spec_enc_arr_items(xs) + seq![93u8] + Seq::<u8>::empty();
        assert(t.skip(1) =~= body);
        crate::num::lemma_digits_num(xs[0] as nat);
        assert(spec_enc_arr_items(xs)[0] == spec_digits(xs[0] as nat)[0]);
        assert(is_digit(body[0]));
        assert(!is_ws(body[0]));
        assert(body[0] != 93);
        lemma_skip_ws_id(body);
        lemma_arr_items_roundtrip(xs, Seq::<u8>::empty());
        assert(sp_skip_ws(Seq::<u8>::empty()).len() == 0);
    }
}

} // verus!
