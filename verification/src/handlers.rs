//! The example application's handlers, each in the two calling styles the
//! adapter supports: a structured-argument function that receives its
//! extracted values, and a raw-request function that runs the extraction
//! itself. Both styles of one behavior share one specification, so dispatch
//! through either draws the same response (proved in `lemma_styles_agree`).

use vstd::prelude::*;
use crate::bytes::append_bytes;
use crate::bytes::bytes_of;
use crate::bytes::lit_bytes;
use crate::error::ExtractError;
use crate::extract::UserRequest;
use crate::extract::extract_form_user;
use crate::extract::extract_json_ids;
use crate::extract::extract_json_user;
use crate::extract::extract_param_u32;
use crate::extract::spec_ids_from_json;
use crate::extract::spec_param_u32;
use crate::extract::spec_user_from_form;
use crate::extract::spec_user_from_json;
use crate::json::enc_json_obj;
use crate::json::enc_json_str;
use crate::json::obj_wf;
use crate::json::spec_enc_obj;
use crate::json::spec_enc_str;
use crate::json::str_wf;
use crate::num::all_digits;
use crate::num::fmt_u64;
use crate::num::spec_digits;
use crate::num::spec_num;
use crate::query::Pagination;
use crate::query::extract_pagination;
use crate::query::extract_query_u32;
use crate::query::pair_views;
use crate::query::spec_lookup;
use crate::query::spec_pagination;
use crate::query::spec_query_u32;
use crate::request::ReqV;
use crate::request::Request;
use crate::request::RespV;
use crate::request::Response;
use crate::request::json_response;
use crate::request::res_view;
use crate::request::spec_error_response;
use crate::request::spec_json_response;
use crate::request::spec_take_body;
use crate::request::spec_text_response;
use crate::request::text_response;
use crate::router::Handler;

verus! {

/// `Option` rendered as its debug form: `None` or `Some(n)`.
pub open spec fn spec_opt_dbg(o: Option<u64>) -> Seq<u8> {
    match o {
        None => bytes_of("None"),
        Some(n) => bytes_of("Some(") + spec_digits(n as nat) + bytes_of(")"),
    }
}

fn opt_dbg(o: Option<u64>) -> (r: Vec<u8>)
    ensures
        r@ == spec_opt_dbg(o),
{
    match o {
        None => lit_bytes("None"),
        Some(n) => {
            let mut v = lit_bytes("Some(");
            let d = fmt_u64(n);
            append_bytes(&mut v, d.as_slice());
            append_bytes(&mut v, lit_bytes(")").as_slice());
            proof {
                assert(v@ =~= spec_opt_dbg(o));
            }
            v
        },
    }
}

/// A list of ids rendered as its debug form: `[1, 2, 3]`.
pub open spec fn spec_ids_items(xs: Seq<u32>) -> Seq<u8>
    decreases xs.len(),
{
    if xs.len() == 0 {
        Seq::<u8>::empty()
    } else if xs.len() == 1 {
        spec_digits(xs[0] as nat)
    } else {
        spec_digits(xs[0] as nat) + bytes_of(", ") + spec_ids_items(xs.skip(1))
    }
}

pub open spec fn spec_ids_dbg(xs: Seq<u32>) -> Seq<u8> {
    seq![91u8] + spec_ids_items(xs) + seq![93u8]
}

proof fn lemma_ids_items_snoc(xs: Seq<u32>, x: u32)
    requires
        xs.len() >= 1,
    ensures
        spec_ids_items(xs.push(x)) == spec_ids_items(xs) + bytes_of(", ") + spec_digits(x as nat),
    decreases xs.len(),
{
    assert(xs.push(x)[0] == xs[0]);
    if xs.len() == 1 {
        assert(xs.push(x).skip(1) =~= seq![x]);
        assert(seq![x][0] == x);
        assert(spec_ids_items(seq![x]) == spec_digits(x as nat));
        assert(spec_ids_items(xs) == spec_digits(xs[0] as nat));
        assert(spec_ids_items(xs.push(x)) =~= spec_ids_items(xs) + bytes_of(", ") + spec_digits(
            x as nat,
        ));
    } else {
        lemma_ids_items_snoc(xs.skip(1), x);
        assert(xs.push(x).skip(1) =~= xs.skip(1).push(x));
        assert(spec_ids_items(xs.push(x)) =~= spec_ids_items(xs) + bytes_of(", ") + spec_digits(
            x as nat,
        ));
    }
}

fn ids_dbg(xs: &Vec<u32>) -> (r: Vec<u8>)
    ensures
        r@ == spec_ids_dbg(xs@),
{
    let mut out: Vec<u8> = Vec::new();
    out.push(91);
    let mut i: usize = 0;
    proof {
        assert(xs@.take(0) =~= Seq::<u32>::empty());
        assert(out@ =~= seq![91u8] + spec_ids_items(xs@.take(0)));
    }
    while i < xs.len()
        invariant
            i <= xs.len(),
            out@ == seq![91u8] + spec_ids_items(xs@.take(i as int)),
        decreases xs.len() - i,
    {
        if i > 0 {
            append_bytes(&mut out, lit_bytes(", ").as_slice());
        }
        let d = fmt_u64(xs[i] as u64);
        append_bytes(&mut out, d.as_slice());
        proof {
            if i > 0 {
                lemma_ids_items_snoc(xs@.take(i as int), xs@[i as int]);
            }
            assert(xs@.take(i as int).push(xs@[i as int]) =~= xs@.take(i as int + 1));
            assert(out@ =~= seq![91u8] + spec_ids_items(xs@.take(i as int + 1)));
        }
        i += 1;
    }
    out.push(93);
    proof {
        assert(xs@.take(i as int) =~= xs@);
        assert(out@ =~= spec_ids_dbg(xs@));
    }
    out
}

/// The login response: the two fields echoed in one JSON string, or
/// `ResponseBuildError` when the text cannot stand in a JSON string.
pub open spec fn spec_login_result(u: Seq<u8>, p: Seq<u8>) -> Result<RespV, ExtractError> {
    let body = bytes_of("user_name: ") + u + bytes_of(",pwd: ") + p;
    if str_wf(body) {
        Ok(spec_json_response(spec_enc_str(body)))
    } else {
        Err(ExtractError::ResponseBuildError)
    }
}

/// What the login route answers, given the request.
pub open spec fn spec_user_login(rq: ReqV) -> Result<RespV, ExtractError> {
    match spec_take_body(rq).0 {
        Err(e) => Err(e),
        Ok(b) => match spec_user_from_json(b) {
            Err(e) => Err(e),
            Ok(up) => spec_login_result(up.0, up.1),
        },
    }
}

/// Echoes the credentials of a decoded login payload.
pub fn user_login_handler(binding: UserRequest) -> (r: Result<Response, ExtractError>)
    ensures
        res_view(r) == spec_login_result(binding.user_name@, binding.pwd@),
{
    let mut body = lit_bytes("user_name: ");
    append_bytes(&mut body, binding.user_name.as_slice());
    append_bytes(&mut body, lit_bytes(",pwd: ").as_slice());
    append_bytes(&mut body, binding.pwd.as_slice());
    proof {
        assert(body@ =~= bytes_of("user_name: ") + binding.user_name@ + bytes_of(",pwd: ")
            + binding.pwd@);
    }
    match enc_json_str(body.as_slice()) {
        Some(e) => Ok(json_response(e)),
        None => Err(ExtractError::ResponseBuildError),
    }
}

/// The same behavior, raw style: extracts the JSON body itself.
pub fn user_login_or_handler(req: &mut Request) -> (r: Result<Response, ExtractError>)
    ensures
        final(req)@ == spec_take_body(old(req)@).1,
        res_view(r) == spec_user_login(old(req)@),
{
    match extract_json_user(req) {
        Err(e) => Err(e),
        Ok(u) => user_login_handler(u),
    }
}

/// What the query-scalar route answers.
pub open spec fn spec_user_info(rq: ReqV) -> Result<RespV, ExtractError> {
    match spec_query_u32(rq.query) {
        Err(e) => Err(e),
        Ok(n) => Ok(spec_text_response(bytes_of("id: ") + spec_digits(n as nat))),
    }
}

fn id_text(n: u32) -> (r: Vec<u8>)
    ensures
        r@ == bytes_of("id: ") + spec_digits(n as nat),
{
    let mut v = lit_bytes("id: ");
    let d = fmt_u64(n as u64);
    append_bytes(&mut v, d.as_slice());
    v
}

/// Echoes a numeric id extracted from the query string.
pub fn user_info_handler(id: u32) -> (r: Result<Response, ExtractError>)
    ensures
        res_view(r) == Ok::<RespV, ExtractError>(
            spec_text_response(bytes_of("id: ") + spec_digits(id as nat)),
        ),
{
    Ok(text_response(id_text(id)))
}

/// The same behavior, raw style.
pub fn user_info_or_handler(req: &mut Request) -> (r: Result<Response, ExtractError>)
    ensures
        final(req)@ == old(req)@,
        res_view(r) == spec_user_info(old(req)@),
{
    match extract_query_u32(req.query.as_slice()) {
        Err(e) => Err(e),
        Ok(id) => user_info_handler(id),
    }
}

/// What the listing route answers: the pagination window echoed.
pub open spec fn spec_user_list(rq: ReqV) -> Result<RespV, ExtractError> {
    match spec_pagination(rq.query) {
        Err(e) => Err(e),
        Ok(p) => Ok(
            spec_text_response(
                bytes_of("offset: ") + spec_opt_dbg(p.offset) + bytes_of(", limit: ")
                    + spec_opt_dbg(p.limit),
            ),
        ),
    }
}

/// Echoes the pagination window.
pub fn user_list_handler(p: Pagination) -> (r: Result<Response, ExtractError>)
    ensures
        res_view(r) == Ok::<RespV, ExtractError>(
            spec_text_response(
                bytes_of("offset: ") + spec_opt_dbg(p.offset) + bytes_of(", limit: ")
                    + spec_opt_dbg(p.limit),
            ),
        ),
{
    let mut body = lit_bytes("offset: ");
    append_bytes(&mut body, opt_dbg(p.offset).as_slice());
    append_bytes(&mut body, lit_bytes(", limit: ").as_slice());
    append_bytes(&mut body, opt_dbg(p.limit).as_slice());
    proof {
        assert(body@ =~= bytes_of("offset: ") + spec_opt_dbg(p.offset) + bytes_of(", limit: ")
            + spec_opt_dbg(p.limit));
    }
    Ok(text_response(body))
}

/// The same behavior, raw style.
pub fn user_list_or_handler(req: &mut Request) -> (r: Result<Response, ExtractError>)
    ensures
        final(req)@ == old(req)@,
        res_view(r) == spec_user_list(old(req)@),
{
    match extract_pagination(req.query.as_slice()) {
        Err(e) => Err(e),
        Ok(p) => user_list_handler(p),
    }
}

/// What the id-plus-window route answers: the `id` capture first, then the
/// pagination window, the first failure reported.
pub open spec fn spec_user_list_id(rq: ReqV, params: Seq<(Seq<u8>, Seq<u8>)>) -> Result<
    RespV,
    ExtractError,
> {
    match spec_param_u32(params, bytes_of("id")) {
        Err(e) => Err(e),
        Ok(id) => match spec_pagination(rq.query) {
            Err(e) => Err(e),
            Ok(p) => Ok(
                spec_text_response(
                    bytes_of("id: ") + spec_digits(id as nat) + bytes_of(" offset: ")
                        + spec_opt_dbg(p.offset) + bytes_of(", limit: ") + spec_opt_dbg(p.limit),
                ),
            ),
        },
    }
}

/// Echoes the `id` capture and the pagination window together; offered in
/// the raw style only, reading both extractions itself.
pub fn user_list_id_handler(req: &mut Request, params: &Vec<(Vec<u8>, Vec<u8>)>) -> (r: Result<
    Response,
    ExtractError,
>)
    ensures
        final(req)@ == old(req)@,
        res_view(r) == spec_user_list_id(old(req)@, pair_views(params@)),
{
    let id = match extract_param_u32(params, lit_bytes("id").as_slice()) {
        Err(e) => {
            return Err(e);
        },
        Ok(id) => id,
    };
    let p = match extract_pagination(req.query.as_slice()) {
        Err(e) => {
            return Err(e);
        },
        Ok(p) => p,
    };
    let mut body = id_text(id);
    append_bytes(&mut body, lit_bytes(" offset: ").as_slice());
    append_bytes(&mut body, opt_dbg(p.offset).as_slice());
    append_bytes(&mut body, lit_bytes(", limit: ").as_slice());
    append_bytes(&mut body, opt_dbg(p.limit).as_slice());
    proof {
        assert(body@ =~= bytes_of("id: ") + spec_digits(id as nat) + bytes_of(" offset: ")
            + spec_opt_dbg(p.offset) + bytes_of(", limit: ") + spec_opt_dbg(p.limit));
    }
    Ok(text_response(body))
}

/// The update response: the payload re-encoded as a JSON object, or
/// `ResponseBuildError` when a field cannot stand in a JSON string.
pub open spec fn spec_update_result(u: Seq<u8>, p: Seq<u8>) -> Result<RespV, ExtractError> {
    let ps = seq![(bytes_of("user_name"), u), (bytes_of("pwd"), p)];
    if obj_wf(ps) {
        Ok(spec_json_response(spec_enc_obj(ps)))
    } else {
        Err(ExtractError::ResponseBuildError)
    }
}

/// What the update route answers, given the request.
pub open spec fn spec_user_update(rq: ReqV) -> Result<RespV, ExtractError> {
    match spec_take_body(rq).0 {
        Err(e) => Err(e),
        Ok(b) => match spec_user_from_form(b) {
            Err(e) => Err(e),
            Ok(up) => spec_update_result(up.0, up.1),
        },
    }
}

/// Echoes a decoded update payload as a JSON object.
pub fn user_update_handler(binding: UserRequest) -> (r: Result<Response, ExtractError>)
    ensures
        res_view(r) == spec_update_result(binding.user_name@, binding.pwd@),
{
    let mut ps: Vec<(Vec<u8>, Vec<u8>)> = Vec::new();
    ps.push((lit_bytes("user_name"), binding.user_name));
    ps.push((lit_bytes("pwd"), binding.pwd));
    proof {
        assert(pair_views(ps@) =~~= seq![
            (bytes_of("user_name"), ps@[0].1@),
            (bytes_of("pwd"), ps@[1].1@),
        ]);
    }
    match enc_json_obj(&ps) {
        Some(e) => Ok(json_response(e)),
        None => Err(ExtractError::ResponseBuildError),
    }
}

/// The same behavior, raw style: extracts the form body itself.
pub fn user_update_or_handler(req: &mut Request) -> (r: Result<Response, ExtractError>)
    ensures
        final(req)@ == spec_take_body(old(req)@).1,
        res_view(r) == spec_user_update(old(req)@),
{
    match extract_form_user(req) {
        Err(e) => Err(e),
        Ok(u) => user_update_handler(u),
    }
}

/// What the path-capture route answers.
pub open spec fn spec_user_info_path(params: Seq<(Seq<u8>, Seq<u8>)>) -> Result<
    RespV,
    ExtractError,
> {
    match spec_param_u32(params, bytes_of("id")) {
        Err(e) => Err(e),
        Ok(n) => Ok(spec_text_response(bytes_of("id: ") + spec_digits(n as nat))),
    }
}

/// Echoes a numeric id captured from the path.
pub fn user_info_path_handler(id: u32) -> (r: Result<Response, ExtractError>)
    ensures
        res_view(r) == Ok::<RespV, ExtractError>(
            spec_text_response(bytes_of("id: ") + spec_digits(id as nat)),
        ),
{
    Ok(text_response(id_text(id)))
}

/// The same behavior, raw style.
pub fn user_info_path_or_handler(params: &Vec<(Vec<u8>, Vec<u8>)>) -> (r: Result<
    Response,
    ExtractError,
>)
    ensures
        res_view(r) == spec_user_info_path(pair_views(params@)),
{
    match extract_param_u32(params, lit_bytes("id").as_slice()) {
        Err(e) => Err(e),
        Ok(id) => user_info_path_handler(id),
    }
}

/// The delete response: the id echoed in one JSON string.
pub open spec fn spec_del_result(id: u32) -> Result<RespV, ExtractError> {
    let body = bytes_of("id: ") + spec_digits(id as nat);
    if str_wf(body) {
        Ok(spec_json_response(spec_enc_str(body)))
    } else {
        Err(ExtractError::ResponseBuildError)
    }
}

/// What the delete route answers.
pub open spec fn spec_user_del(params: Seq<(Seq<u8>, Seq<u8>)>) -> Result<RespV, ExtractError> {
    match spec_param_u32(params, bytes_of("id")) {
        Err(e) => Err(e),
        Ok(n) => spec_del_result(n),
    }
}

/// Echoes the deleted id as a JSON string.
pub fn user_del_handler(id: u32) -> (r: Result<Response, ExtractError>)
    ensures
        res_view(r) == spec_del_result(id),
{
    let body = id_text(id);
    match enc_json_str(body.as_slice()) {
        Some(e) => Ok(json_response(e)),
        None => Err(ExtractError::ResponseBuildError),
    }
}

/// The many-ids delete response: the list echoed in one JSON string.
pub open spec fn spec_del_many_result(ids: Seq<u32>) -> Result<RespV, ExtractError> {
    let body = bytes_of("ids: ") + spec_ids_dbg(ids);
    if str_wf(body) {
        Ok(spec_json_response(spec_enc_str(body)))
    } else {
        Err(ExtractError::ResponseBuildError)
    }
}

/// What the many-ids delete route answers, given the request.
pub open spec fn spec_user_del_many(rq: ReqV) -> Result<RespV, ExtractError> {
    match spec_take_body(rq).0 {
        Err(e) => Err(e),
        Ok(b) => match spec_ids_from_json(b) {
            Err(e) => Err(e),
            Ok(ids) => spec_del_many_result(ids),
        },
    }
}

/// Echoes a decoded id list as a JSON string.
pub fn user_del_or_handler(ids: Vec<u32>) -> (r: Result<Response, ExtractError>)
    ensures
        res_view(r) == spec_del_many_result(ids@),
{
    let mut body = lit_bytes("ids: ");
    append_bytes(&mut body, ids_dbg(&ids).as_slice());
    proof {
        assert(body@ =~= bytes_of("ids: ") + spec_ids_dbg(ids@));
    }
    match enc_json_str(body.as_slice()) {
        Some(e) => Ok(json_response(e)),
        None => Err(ExtractError::ResponseBuildError),
    }
}

/// The example's route handlers as registrable values: one variant per
/// registered behavior, the raw-style twins included.
#[derive(Clone, Copy, Debug, PartialEq, Eq, Structural)]
pub enum DemoHandler {
    Login,
    LoginRaw,
    Info,
    InfoRaw,
    List,
    ListRaw,
    ListId,
    Update,
    UpdateRaw,
    InfoPath,
    InfoPathRaw,
    Del,
    DelMany,
}

impl Handler for DemoHandler {
    open spec fn spec_call(&self, rq: ReqV, params: Seq<(Seq<u8>, Seq<u8>)>) -> Result<
        RespV,
        ExtractError,
    > {
        match self {
            DemoHandler::Login => spec_user_login(rq),
            DemoHandler::LoginRaw => spec_user_login(rq),
            DemoHandler::Info => spec_user_info(rq),
            DemoHandler::InfoRaw => spec_user_info(rq),
            DemoHandler::List => spec_user_list(rq),
            DemoHandler::ListRaw => spec_user_list(rq),
            DemoHandler::ListId => spec_user_list_id(rq, params),
            DemoHandler::Update => spec_user_update(rq),
            DemoHandler::UpdateRaw => spec_user_update(rq),
            DemoHandler::InfoPath => spec_user_info_path(params),
            DemoHandler::InfoPathRaw => spec_user_info_path(params),
            DemoHandler::Del => spec_user_del(params),
            DemoHandler::DelMany => spec_user_del_many(rq),
        }
    }

    fn call(&self, req: &mut Request, params: &Vec<(Vec<u8>, Vec<u8>)>) -> (r: Result<
        Response,
        ExtractError,
    >) {
        match self {
            DemoHandler::Login => match extract_json_user(req) {
                Err(e) => Err(e),
                Ok(u) => user_login_handler(u),
            },
            DemoHandler::LoginRaw => user_login_or_handler(req),
            DemoHandler::Info => match extract_query_u32(req.query.as_slice()) {
                Err(e) => Err(e),
                Ok(id) => user_info_handler(id),
            },
            DemoHandler::InfoRaw => user_info_or_handler(req),
            DemoHandler::List => match extract_pagination(req.query.as_slice()) {
                Err(e) => Err(e),
                Ok(p) => user_list_handler(p),
            },
            DemoHandler::ListRaw => user_list_or_handler(req),
            DemoHandler::ListId => user_list_id_handler(req, params),
            DemoHandler::Update => match extract_form_user(req) {
                Err(e) => Err(e),
                Ok(u) => user_update_handler(u),
            },
            DemoHandler::UpdateRaw => user_update_or_handler(req),
            DemoHandler::InfoPath => match extract_param_u32(
                params,
                lit_bytes("id").as_slice(),
            ) {
                Err(e) => Err(e),
                Ok(id) => user_info_path_handler(id),
            },
            DemoHandler::InfoPathRaw => user_info_path_or_handler(params),
            DemoHandler::Del => match extract_param_u32(params, lit_bytes("id").as_slice()) {
                Err(e) => Err(e),
                Ok(id) => user_del_handler(id),
            },
            DemoHandler::DelMany => match extract_json_ids(req) {
                Err(e) => Err(e),
                Ok(ids) => user_del_or_handler(ids),
            },
        }
    }
}

/// The two calling styles are two conventions over one extraction contract:
/// for every behavior offered in both, the structured-argument handler and
/// the raw-request handler answer any request and captures identically.
pub proof fn lemma_styles_agree(rq: ReqV, params: Seq<(Seq<u8>, Seq<u8>)>)
    ensures
        DemoHandler::Login.spec_call(rq, params) == DemoHandler::LoginRaw.spec_call(rq, params),
        DemoHandler::Info.spec_call(rq, params) == DemoHandler::InfoRaw.spec_call(rq, params),
        DemoHandler::List.spec_call(rq, params) == DemoHandler::ListRaw.spec_call(rq, params),
        DemoHandler::Update.spec_call(rq, params) == DemoHandler::UpdateRaw.spec_call(rq, params),
        DemoHandler::InfoPath.spec_call(rq, params) == DemoHandler::InfoPathRaw.spec_call(
            rq,
            params,
        ),
{
}

/// A numeric capture behaves as the route declares: a captured segment that
/// is a numeral in range parses to its value, any other draws
/// `ParamParseError`, which the router reports as a 400 response.
pub proof fn lemma_numeric_capture(params: Seq<(Seq<u8>, Seq<u8>)>, name: Seq<u8>, v: Seq<u8>)
    requires
        spec_lookup(params, name) == Some(v),
    ensures
        v.len() > 0 && all_digits(v) && spec_num(v) <= u32::MAX ==> spec_param_u32(params, name)
            == Ok::<u32, ExtractError>((spec_num(v) as u32)),
        !(v.len() > 0 && all_digits(v) && spec_num(v) <= u32::MAX) ==> spec_param_u32(params, name)
            == Err::<u32, ExtractError>(ExtractError::ParamParseError) && spec_error_response(
            ExtractError::ParamParseError,
        ).status == 400,
{
}

} // verus!
