//! The typed extractors: path parameters by name, and the body extractors —
//! JSON and form — for the payload types of this crate. Query extraction
//! lives in `query`; every body extractor consumes the request's body
//! through `Request::take_body` and so obeys the consume-at-most-once rule.
//! A body is decoded by the route's declared target alone: the Content-Type
//! header is accepted regardless, uniformly.

use vstd::prelude::*;
use crate::bytes::bytes_of;
use crate::bytes::lit_bytes;
use crate::error::ExtractError;
use crate::json::parse_json_arr;
use crate::json::parse_json_obj;
use crate::json::sp_arr;
use crate::json::sp_obj;
use crate::num::all_digits;
use crate::num::parse_u32;
use crate::num::spec_num;
use crate::query::lookup;
use crate::query::pair_views;
use crate::query::parse_pairs;
use crate::query::spec_lookup;
use crate::query::spec_pairs;
use crate::request::ReqV;
use crate::request::Request;
use crate::request::spec_take_body;

verus! {

/// The payload of the demo's login and update routes.
pub struct UserRequest {
    pub user_name: Vec<u8>,
    pub pwd: Vec<u8>,
}

/// A named path capture parsed as a `u32`: an absent name is
/// `MissingParam`, a non-numeral `ParamParseError`.
pub open spec fn spec_param_u32(params: Seq<(Seq<u8>, Seq<u8>)>, name: Seq<u8>) -> Result<
    u32,
    ExtractError,
> {
    match spec_lookup(params, name) {
        None => Err(ExtractError::MissingParam),
        Some(v) => if v.len() > 0 && all_digits(v) && spec_num(v) <= u32::MAX {
            Ok(spec_num(v) as u32)
        } else {
            Err(ExtractError::ParamParseError)
        },
    }
}

/// Reads a named capture as a `u32`.
pub fn extract_param_u32(params: &Vec<(Vec<u8>, Vec<u8>)>, name: &[u8]) -> (r: Result<
    u32,
    ExtractError,
>)
    ensures
        r == spec_param_u32(pair_views(params@), name@),
{
    match lookup(params, name) {
        None => Err(ExtractError::MissingParam),
        Some(v) => match parse_u32(v.as_slice()) {
            Some(n) => Ok(n),
            None => Err(ExtractError::ParamParseError),
        },
    }
}

/// The user payload out of decoded pairs: both fields required.
pub open spec fn spec_user_from_pairs(ps: Seq<(Seq<u8>, Seq<u8>)>) -> Option<(Seq<u8>, Seq<u8>)> {
    match (spec_lookup(ps, bytes_of("user_name")), spec_lookup(ps, bytes_of("pwd"))) {
        (Some(u), Some(p)) => Some((u, p)),
        _ => None,
    }
}

/// The user payload from a JSON body: a flat object holding `user_name` and
/// `pwd`; any other document is `MalformedJson`, a missing field too
/// (a schema mismatch).
pub open spec fn spec_user_from_json(b: Seq<u8>) -> Result<(Seq<u8>, Seq<u8>), ExtractError> {
    match sp_obj(b) {
        None => Err(ExtractError::MalformedJson),
        Some(ps) => match spec_user_from_pairs(ps) {
            Some(up) => Ok(up),
            None => Err(ExtractError::MalformedJson),
        },
    }
}

/// The user payload from a form body: `user_name` and `pwd` as
/// form-encoded fields; a missing field is `MalformedForm`.
pub open spec fn spec_user_from_form(b: Seq<u8>) -> Result<(Seq<u8>, Seq<u8>), ExtractError> {
    match spec_user_from_pairs(spec_pairs(b)) {
        Some(up) => Ok(up),
        None => Err(ExtractError::MalformedForm),
    }
}

proof fn lemma_literal_field_names()
    ensures
        crate::json::str_wf(bytes_of("user_name")),
        crate::json::str_wf(bytes_of("pwd")),
        bytes_of("user_name") != bytes_of("pwd"),
{
    reveal_strlit("user_name");
    reveal_strlit("pwd");
    assert(vstd::string::is_ascii("user_name"));
    assert(vstd::string::is_ascii("pwd"));
    vstd::string::is_ascii_spec_bytes("user_name");
    vstd::string::is_ascii_spec_bytes("pwd");
    assert(bytes_of("user_name").len() == 9);
    assert(bytes_of("pwd").len() == 3);
    assert forall|i: int|
        0 <= i < bytes_of("user_name").len() implies #[trigger] bytes_of("user_name")[i]
        >= 32 by {
        assert(bytes_of("user_name")[i] == ("user_name"@)[i] as u8);
    }
    assert forall|i: int|
        0 <= i < bytes_of("pwd").len() implies #[trigger] bytes_of("pwd")[i] >= 32 by {
        assert(bytes_of("pwd")[i] == ("pwd"@)[i] as u8);
    }
}

/// Round trip through the JSON body: encoding a user payload as the flat
/// object `{"user_name": ..., "pwd": ...}` and extracting it again returns
/// both fields unmodified, for every pair of strings the encoding carries.
pub proof fn lemma_user_json_roundtrip(u: Seq<u8>, p: Seq<u8>)
    requires
        crate::json::str_wf(u),
        crate::json::str_wf(p),
    ensures
        spec_user_from_json(
            crate::json::spec_enc_obj(seq![(bytes_of("user_name"), u), (bytes_of("pwd"), p)]),
        ) == Ok::<(Seq<u8>, Seq<u8>), ExtractError>((u, p)),
{
    lemma_literal_field_names();
    let ps = seq![(bytes_of("user_name"), u), (bytes_of("pwd"), p)];
    assert(crate::json::obj_wf(ps)) by {
        assert(ps[0] == (bytes_of("user_name"), u));
        assert(ps[1] == (bytes_of("pwd"), p));
    }
    crate::json::lemma_obj_roundtrip(ps);
    assert(spec_lookup(ps, bytes_of("user_name")) == Some(u)) by {
        assert(ps[0].0 == bytes_of("user_name"));
    }
    assert(spec_lookup(ps, bytes_of("pwd")) == Some(p)) by {
        assert(ps[0].0 != bytes_of("pwd"));
        assert(spec_lookup(ps, bytes_of("pwd")) == spec_lookup(ps.skip(1), bytes_of("pwd")));
        assert(ps.skip(1)[0] == (bytes_of("pwd"), p));
        assert(ps.skip(1).len() == 1);
        assert(spec_lookup(ps.skip(1), bytes_of("pwd")) == Some(p));
    }
}

/// What a body extractor built on `decode` does: take the body — at most
/// once — then decode it.
pub open spec fn spec_body_extract(
    rq: ReqV,
    decoded: Result<(Seq<u8>, Seq<u8>), ExtractError>,
) -> Result<(Seq<u8>, Seq<u8>), ExtractError> {
    match spec_take_body(rq).0 {
        Err(e) => Err(e),
        Ok(_) => decoded,
    }
}

fn user_from_pairs(ps: &Vec<(Vec<u8>, Vec<u8>)>) -> (r: Option<UserRequest>)
    ensures
        match r {
            Some(u) => spec_user_from_pairs(pair_views(ps@)) == Some((u.user_name@, u.pwd@)),
            None => spec_user_from_pairs(pair_views(ps@)) is None,
        },
{
    let user_name = lookup(ps, lit_bytes("user_name").as_slice());
    let pwd = lookup(ps, lit_bytes("pwd").as_slice());
    match (user_name, pwd) {
        (Some(u), Some(p)) => Some(UserRequest { user_name: u, pwd: p }),
        _ => None,
    }
}

/// Extracts the user payload from a JSON body, consuming the body.
pub fn extract_json_user(req: &mut Request) -> (r: Result<UserRequest, ExtractError>)
    ensures
        final(req)@ == spec_take_body(old(req)@).1,
        match r {
            Ok(u) => match spec_take_body(old(req)@).0 {
                Ok(b) => spec_user_from_json(b) == Ok::<(Seq<u8>, Seq<u8>), ExtractError>(
                    (u.user_name@, u.pwd@),
                ),
                Err(_) => false,
            },
            Err(e) => match spec_take_body(old(req)@).0 {
                Ok(b) => spec_user_from_json(b) == Err::<(Seq<u8>, Seq<u8>), ExtractError>(e),
                Err(e2) => e == e2,
            },
        },
{
    let body = match req.take_body() {
        Ok(b) => b,
        Err(e) => {
            return Err(e);
        },
    };
    let ps = match parse_json_obj(body.as_slice()) {
        Ok(ps) => ps,
        Err(e) => {
            return Err(e);
        },
    };
    match user_from_pairs(&ps) {
        Some(u) => Ok(u),
        None => Err(ExtractError::MalformedJson),
    }
}

/// Extracts the user payload from a form body, consuming the body.
pub fn extract_form_user(req: &mut Request) -> (r: Result<UserRequest, ExtractError>)
    ensures
        final(req)@ == spec_take_body(old(req)@).1,
        match r {
            Ok(u) => match spec_take_body(old(req)@).0 {
                Ok(b) => spec_user_from_form(b) == Ok::<(Seq<u8>, Seq<u8>), ExtractError>(
                    (u.user_name@, u.pwd@),
                ),
                Err(_) => false,
            },
            Err(e) => match spec_take_body(old(req)@).0 {
                Ok(b) => spec_user_from_form(b) == Err::<(Seq<u8>, Seq<u8>), ExtractError>(e),
                Err(e2) => e == e2,
            },
        },
{
    let body = match req.take_body() {
        Ok(b) => b,
        Err(e) => {
            return Err(e);
        },
    };
    let ps = parse_pairs(body.as_slice());
    match user_from_pairs(&ps) {
        Some(u) => Ok(u),
        None => Err(ExtractError::MalformedForm),
    }
}

/// A list of 32-bit ids from a JSON array body: an element over `u32::MAX`
/// is a schema mismatch.
pub open spec fn spec_ids_from_json(b: Seq<u8>) -> Result<Seq<u32>, ExtractError> {
    match sp_arr(b) {
        None => Err(ExtractError::MalformedJson),
        Some(xs) => if forall|i: int| 0 <= i < xs.len() ==> #[trigger] xs[i] <= u32::MAX {
            Ok(xs.map_values(|x: u64| x as u32))
        } else {
            Err(ExtractError::MalformedJson)
        },
    }
}

/// Extracts a list of ids from a JSON array body, consuming the body.
pub fn extract_json_ids(req: &mut Request) -> (r: Result<Vec<u32>, ExtractError>)
    ensures
        final(req)@ == spec_take_body(old(req)@).1,
        match r {
            Ok(ids) => match spec_take_body(old(req)@).0 {
                Ok(b) => spec_ids_from_json(b) == Ok::<Seq<u32>, ExtractError>(ids@),
                Err(_) => false,
            },
            Err(e) => match spec_take_body(old(req)@).0 {
                Ok(b) => spec_ids_from_json(b) == Err::<Seq<u32>, ExtractError>(e),
                Err(e2) => e == e2,
            },
        },
{
    let body = match req.take_body() {
        Ok(b) => b,
        Err(e) => {
            return Err(e);
        },
    };
    let xs = match parse_json_arr(body.as_slice()) {
        Ok(xs) => xs,
        Err(e) => {
            return Err(e);
        },
    };
    let ghost bv = body@;
    let mut ids: Vec<u32> = Vec::new();
    let mut i: usize = 0;
    while i < xs.len()
        invariant
            i <= xs.len(),
            req@ == spec_take_body(old(req)@).1,
            spec_take_body(old(req)@).0 == Ok::<Seq<u8>, ExtractError>(bv),
            sp_arr(bv) == Some(xs@),
            forall|k: int| 0 <= k < i ==> #[trigger] xs@[k] <= u32::MAX,
            ids@ == xs@.take(i as int).map_values(|x: u64| x as u32),
        decreases xs.len() - i,
    {
        let x = xs[i];
        if x > u32::MAX as u64 {
            return Err(ExtractError::MalformedJson);
        }
        ids.push(x as u32);
        proof {
            assert(ids@ =~= xs@.take(i as int + 1).map_values(|x: u64| x as u32));
        }
        i += 1;
    }
    proof {
        assert(xs@.take(i as int) =~= xs@);
    }
    Ok(ids)
}

} // verus!
