//! Samples of captured HTTP traffic, and the path classifier / operation
//! namer that derives a path template and naming from one sample.

use vstd::prelude::*;
use vstd::string::*;
use crate::strutil::{ends_with, str_ends_with, str_prefix, str_eq, is_digit_seq, str_is_digits};
use crate::jsonval::JsonValue;
use crate::bridge::{pascal_of, snake_of, url_path_of, to_pascal_case, to_snake_case, parse_url_path};
use crate::openapi::{spec_extract_object_name, extract_object_name};
use crate::error::GenError;

verus! {

/// One captured request, already reduced to plain values by the caller:
/// the raw URL string, decoded query pairs, and the parsed JSON body.
pub struct Request {
    pub url: String,
    pub headers: Vec<(String, String)>,
    pub query: Vec<(String, String)>,
    pub method: String,
    pub body: Option<RequestBody>,
}

pub struct RequestBody {
    pub mime: String,
    pub content: JsonValue,
}

/// One captured response: parsed JSON body (or null) and its headers.
pub struct Response {
    pub data: JsonValue,
    pub headers: Vec<(String, String)>,
}

#[derive(Clone, Copy, PartialEq, Eq, Structural, Debug)]
pub enum ParameterType {
    Integer,
}

pub struct PathParameter {
    pub name: String,
    pub typ: ParameterType,
}

/// The naming derived from one sample's URL path and method.
pub struct RequestInfo {
    pub path: String,
    pub object_name: String,
    pub operation_id: String,
    pub response_object_name: String,
    pub method: String,
    /// The path parameters, e.g. one `id` entry for `/users/{id}`.
    pub path_parameters: Vec<PathParameter>,
}

/// `s` ends in `"s"` but not in `"ss"`: the plural-looking shapes that the
/// naming heuristics leave alone.
pub open spec fn spec_is_plural(s: Seq<char>) -> bool {
    ends_with(s, "s"@) && !ends_with(s, "ss"@)
}

/// The pluralization heuristic applied to a finished operation id:
/// `"ss"` gains `"es"`, a trailing `"y"` becomes `"ies"`, anything not
/// already ending in `"s"` gains an `"s"`.
pub open spec fn spec_pluralize(s: Seq<char>) -> Seq<char> {
    if ends_with(s, "ss"@) {
        s + "es"@
    } else if ends_with(s, "y"@) {
        s.drop_last() + "ies"@
    } else if !ends_with(s, "s"@) {
        s + "s"@
    } else {
        s
    }
}

/// The singularization heuristic for JSON object keys: `"sses"` drops two
/// characters, `"ies"` becomes `"y"`, a plain trailing `"s"` is dropped.
pub open spec fn spec_singular(s: Seq<char>) -> Seq<char> {
    if ends_with(s, "sses"@) {
        s.subrange(0, s.len() - 2)
    } else if ends_with(s, "ies"@) {
        s.subrange(0, s.len() - 3) + "y"@
    } else if ends_with(s, "s"@) && !ends_with(s, "ss"@) {
        s.drop_last()
    } else {
        s
    }
}

pub fn plural(s: &str) -> (r: bool)
    ensures
        r == spec_is_plural(s@),
{
    str_ends_with(s, "s") && !str_ends_with(s, "ss")
}

pub fn pluralize(s: &mut String)
    ensures
        final(s)@ == spec_pluralize(old(s)@),
{
    proof {
        reveal_strlit("s");
        reveal_strlit("ss");
        reveal_strlit("y");
        reveal_strlit("es");
        reveal_strlit("ies");
    }
    let len = s.as_str().unicode_len();
    if str_ends_with(s.as_str(), "ss") {
        s.append("es");
        proof {
            assert(s@ =~= spec_pluralize(old(s)@));
        }
    } else if str_ends_with(s.as_str(), "y") {
        let t = str_prefix(s.as_str(), len - 1);
        *s = t;
        s.append("ies");
        proof {
            assert(old(s)@.subrange(0, old(s)@.len() - 1) =~= old(s)@.drop_last());
            assert(s@ =~= spec_pluralize(old(s)@));
        }
    } else if !str_ends_with(s.as_str(), "s") {
        s.append("s");
        proof {
            assert(s@ =~= spec_pluralize(old(s)@));
        }
    }
}

pub fn singular(s: &str) -> (r: String)
    ensures
        r@ == spec_singular(s@),
{
    proof {
        reveal_strlit("s");
        reveal_strlit("ss");
        reveal_strlit("y");
        reveal_strlit("ies");
        reveal_strlit("sses");
    }
    let len = s.unicode_len();
    if str_ends_with(s, "sses") {
        let r = str_prefix(s, len - 2);
        proof {
            assert(r@ =~= spec_singular(s@));
        }
        r
    } else if str_ends_with(s, "ies") {
        let r = str_prefix(s, len - 3).concat("y");
        proof {
            assert(r@ =~= spec_singular(s@));
        }
        r
    } else if str_ends_with(s, "s") && !str_ends_with(s, "ss") {
        let r = str_prefix(s, len - 1);
        proof {
            assert(s@.subrange(0, s@.len() - 1) =~= s@.drop_last());
        }
        r
    } else {
        s.to_owned()
    }
}

/// Law: `pluralize` is not an inverse of `singular`. One concrete
/// witness: `glass` singularizes to itself, but pluralizing it gives
/// `glasses`.
pub proof fn lemma_pluralize_not_inverse_of_singular()
    ensures
        spec_pluralize(spec_singular("glass"@)) != "glass"@,
{
    reveal_strlit("glass");
    reveal_strlit("glasses");
    reveal_strlit("sses");
    reveal_strlit("ies");
    reveal_strlit("ss");
    reveal_strlit("s");
    reveal_strlit("es");
    assert(!ends_with("glass"@, "sses"@)) by {
        if ends_with("glass"@, "sses"@) {
            assert("glass"@.subrange(1, 5)[0] == "glass"@[1]);
        }
    }
    assert(!ends_with("glass"@, "ies"@)) by {
        if ends_with("glass"@, "ies"@) {
            assert("glass"@.subrange(2, 5)[0] == "glass"@[2]);
        }
    }
    assert(ends_with("glass"@, "ss"@)) by {
        assert("glass"@.subrange(3, 5) =~= "ss"@);
    }
    assert(spec_singular("glass"@) == "glass"@);
    assert(spec_pluralize("glass"@) == "glass"@ + "es"@);
    assert(("glass"@ + "es"@).len() == 7);
}

/// Headers that carry no schema information and are dropped from a sample.
pub open spec fn spec_is_ignored_header(h: Seq<char>) -> bool {
    ||| h == "content-length"@
    ||| h == "content-type"@
    ||| h == "accept"@
    ||| h == "user-agent"@
    ||| h == "authorization"@
    ||| h == "accept-encoding"@
    ||| h == "accept-language"@
    ||| h == "access-control-allow-methods"@
    ||| h == "access-control-allow-origin"@
    ||| h == "access-control-allow-headers"@
    ||| h == "access-control-allow-credentials"@
    ||| h == "access-control-expose-headers"@
    ||| h == "server"@
    ||| h == "date"@
    ||| h == ":authority"@
    ||| h == ":method"@
    ||| h == ":path"@
    ||| h == ":scheme"@
    ||| h == "cookie"@
    ||| h == "dnt"@
    ||| h == "referer"@
    ||| h == "sec-ch-ua"@
    ||| h == "sec-ch-ua-mobile"@
    ||| h == "sec-ch-ua-platform"@
    ||| h == "sec-fetch-dest"@
    ||| h == "sec-fetch-mode"@
    ||| h == "sec-fetch-site"@
}

pub fn ignore_header(h: &str) -> (r: bool)
    ensures
        r == spec_is_ignored_header(h@),
{
    str_eq(h, "content-length") || str_eq(h, "content-type") || str_eq(h, "accept")
        || str_eq(h, "user-agent") || str_eq(h, "authorization") || str_eq(h, "accept-encoding")
        || str_eq(h, "accept-language") || str_eq(h, "access-control-allow-methods")
        || str_eq(h, "access-control-allow-origin") || str_eq(h, "access-control-allow-headers")
        || str_eq(h, "access-control-allow-credentials")
        || str_eq(h, "access-control-expose-headers") || str_eq(h, "server") || str_eq(h, "date")
        || str_eq(h, ":authority") || str_eq(h, ":method") || str_eq(h, ":path")
        || str_eq(h, ":scheme") || str_eq(h, "cookie") || str_eq(h, "dnt") || str_eq(h, "referer")
        || str_eq(h, "sec-ch-ua") || str_eq(h, "sec-ch-ua-mobile")
        || str_eq(h, "sec-ch-ua-platform") || str_eq(h, "sec-fetch-dest")
        || str_eq(h, "sec-fetch-mode") || str_eq(h, "sec-fetch-site")
}

/// Drops the ignored headers from a captured header list, keeping order.
pub fn filter_headers(headers: Vec<(String, String)>) -> (r: Vec<(String, String)>)
    ensures
        r@ == headers@.filter(|p: (String, String)| !spec_is_ignored_header(p.0@)),
{
    let mut out: Vec<(String, String)> = Vec::new();
    let mut i: usize = 0;
    while i < headers.len()
        invariant
            i <= headers@.len(),
            out@ == headers@.subrange(0, i as int).filter(
                |p: (String, String)| !spec_is_ignored_header(p.0@),
            ),
        decreases headers@.len() - i,
    {
        let ghost pre = headers@.subrange(0, i as int);
        let (name, value) = (headers[i].0.clone(), headers[i].1.clone());
        proof {
            assert(headers@.subrange(0, i + 1) =~= pre.push(headers@[i as int]));
            reveal_with_fuel(Seq::<_>::filter, 2);
            assert(pre.push(headers@[i as int]).drop_last() =~= pre);
        }
        if !ignore_header(name.as_str()) {
            let ghost prev = out@;
            out.push((name, value));
            proof {
                assert((headers@[i as int].0@, headers@[i as int].1@) == (name@, value@));
                assert(out@ =~= prev.push((name, value)));
                assert(out@ =~= headers@.subrange(0, i + 1).filter(
                    |p: (String, String)| !spec_is_ignored_header(p.0@),
                ));
            }
        } else {
            proof {
                assert(out@ =~= headers@.subrange(0, i + 1).filter(
                    |p: (String, String)| !spec_is_ignored_header(p.0@),
                ));
            }
        }
        i = i + 1;
    }
    proof {
        assert(headers@.subrange(0, headers@.len() as int) =~= headers@);
    }
    out
}


// --- the path classifier and operation namer ---

/// Index of the first `/` in `s`, or `s.len()` if there is none.
pub open spec fn first_slash(s: Seq<char>) -> nat
    decreases s.len(),
{
    if s.len() == 0 {
        0
    } else if s[0] == '/' {
        0
    } else {
        1 + first_slash(s.drop_first())
    }
}

/// `s` split on `/`, as `str::split` yields it: the pieces between
/// separators, empty pieces included.
pub open spec fn spec_split_slash(s: Seq<char>) -> Seq<Seq<char>>
    decreases s.len(),
{
    let i = first_slash(s) as int;
    if i >= s.len() {
        seq![s]
    } else {
        seq![s.subrange(0, i)] + spec_split_slash(s.subrange(i + 1, s.len() as int))
    }
}

proof fn lemma_first_slash_bound(s: Seq<char>)
    ensures
        first_slash(s) <= s.len(),
        first_slash(s) < s.len() ==> s[first_slash(s) as int] == '/',
        forall|j: int| 0 <= j < first_slash(s) ==> s[j] != '/',
    decreases s.len(),
{
    if s.len() > 0 && s[0] != '/' {
        lemma_first_slash_bound(s.drop_first());
        assert forall|j: int| 0 <= j < first_slash(s) implies s[j] != '/' by {
            if j > 0 {
                assert(s.drop_first()[j - 1] == s[j]);
            }
        }
    }
}

/// A scan that saw no `/` before `k` pins `first_slash` down.
proof fn lemma_first_slash_is(s: Seq<char>, k: int)
    requires
        0 <= k <= s.len(),
        forall|j: int| 0 <= j < k ==> s[j] != '/',
        k < s.len() ==> s[k] == '/',
    ensures
        first_slash(s) == k,
    decreases k,
{
    if k > 0 {
        lemma_first_slash_is(s.drop_first(), k - 1);
    }
}

pub open spec fn seg_views(v: Seq<String>) -> Seq<Seq<char>> {
    v.map_values(|x: String| x@)
}

/// Splits a path on `/`, as `str::split('/')` does.
pub fn split_slash(s: &str) -> (r: Vec<String>)
    ensures
        seg_views(r@) == spec_split_slash(s@),
{
    let len = s.unicode_len();
    let mut out: Vec<String> = Vec::new();
    let mut seg_start: usize = 0;
    let mut i: usize = 0;
    proof {
        assert(s@.subrange(0, len as int) =~= s@);
        assert(seg_views(out@) =~= Seq::<Seq<char>>::empty());
        assert(Seq::<Seq<char>>::empty() + spec_split_slash(s@) =~= spec_split_slash(s@));
    }
    while i < len
        invariant
            len == s@.len(),
            seg_start <= i <= len,
            forall|j: int| seg_start <= j < i ==> s@[j] != '/',
            spec_split_slash(s@) == seg_views(out@) + spec_split_slash(
                s@.subrange(seg_start as int, len as int),
            ),
        decreases len - i,
    {
        let ghost suffix = s@.subrange(seg_start as int, len as int);
        if s.get_char(i) == '/' {
            let piece = s.substring_char(seg_start, i).to_owned();
            let ghost prev = out@;
            out.push(piece);
            proof {
                lemma_first_slash_is(suffix, i - seg_start);
                assert(suffix.subrange(0, i - seg_start) =~= s@.subrange(
                    seg_start as int,
                    i as int,
                ));
                assert(suffix.subrange(i - seg_start + 1, suffix.len() as int) =~= s@.subrange(
                    i + 1,
                    len as int,
                ));
                assert(seg_views(out@) =~= seg_views(prev).push(s@.subrange(
                    seg_start as int,
                    i as int,
                )));
                assert(seg_views(prev) + spec_split_slash(suffix) =~= seg_views(out@)
                    + spec_split_slash(s@.subrange(i + 1, len as int)));
            }
            seg_start = i + 1;
        }
        i = i + 1;
    }
    let ghost suffix = s@.subrange(seg_start as int, len as int);
    let piece = s.substring_char(seg_start, len).to_owned();
    let ghost prev = out@;
    out.push(piece);
    proof {
        lemma_first_slash_is(suffix, suffix.len() as int);
        assert(spec_split_slash(suffix) =~= seq![suffix]);
        assert(seg_views(out@) =~= seg_views(prev).push(suffix));
        assert(seg_views(prev) + seq![suffix] =~= seg_views(out@));
    }
    out
}

/// The segments classification works on: everything after the two leading
/// segments (the empty root and the API prefix), empty segments dropped.
pub open spec fn effective_segments(path: Seq<char>) -> Seq<Seq<char>> {
    let parts = spec_split_slash(path);
    if parts.len() < 2 {
        Seq::empty()
    } else {
        parts.subrange(2, parts.len() as int).filter(|t: Seq<char>| t.len() > 0)
    }
}

/// The operation-naming state accumulated left to right over the segments.
pub struct NamingV {
    /// PascalCased name text appended after the method seed.
    pub text: Seq<char>,
    /// Whether a many-results marker (`list`, `all`, or a `list` suffix)
    /// was seen.
    pub many: bool,
    /// The primary-object-name candidate; the last literal segment wins.
    pub candidate: Option<Seq<char>>,
}

/// One pass of operation naming: digit segments and `{`-led segments give
/// no name; `list`/`all` only set the many flag; a `list` suffix with a
/// non-plural stem strips the suffix; any other literal appends and
/// becomes the candidate.
pub open spec fn spec_naming(segs: Seq<Seq<char>>) -> NamingV
    decreases segs.len(),
{
    if segs.len() == 0 {
        NamingV { text: Seq::empty(), many: false, candidate: None }
    } else {
        let prev = spec_naming(segs.drop_last());
        let s = segs.last();
        if is_digit_seq(s) {
            prev
        } else if s == "list"@ || s == "all"@ {
            NamingV { text: prev.text, many: true, candidate: prev.candidate }
        } else if ends_with(s, "list"@) && !spec_is_plural(s.subrange(0, s.len() - 4)) {
            NamingV {
                text: prev.text + pascal_of(s.subrange(0, s.len() - 4)),
                many: true,
                candidate: Some(s.subrange(0, s.len() - 4)),
            }
        } else if s.len() > 0 && s[0] == '{' {
            prev
        } else {
            NamingV { text: prev.text + pascal_of(s), many: prev.many, candidate: Some(s) }
        }
    }
}

/// The rendered path template: each segment behind `/`, digit segments as
/// the `{id}` placeholder.
pub open spec fn spec_template(segs: Seq<Seq<char>>) -> Seq<char>
    decreases segs.len(),
{
    if segs.len() == 0 {
        Seq::empty()
    } else {
        spec_template(segs.drop_last()) + seq!['/'] + (if is_digit_seq(segs.last()) {
            seq!['{', 'i', 'd', '}']
        } else {
            segs.last()
        })
    }
}

/// How many digit segments the path has: one integer `id` path parameter
/// each.
pub open spec fn spec_param_count(segs: Seq<Seq<char>>) -> nat
    decreases segs.len(),
{
    if segs.len() == 0 {
        0
    } else {
        spec_param_count(segs.drop_last()) + (if is_digit_seq(segs.last()) {
            1nat
        } else {
            0nat
        })
    }
}

/// The operation id: the snake-cased method, the accumulated name text,
/// pluralized once if any many-results marker was seen.
pub open spec fn spec_operation_id(method: Seq<char>, segs: Seq<Seq<char>>) -> Seq<char> {
    let n = spec_naming(segs);
    let base = snake_of(method) + n.text;
    if n.many {
        spec_pluralize(base)
    } else {
        base
    }
}

/// The primary object name: the candidate segment, suffix-stripped and
/// singularized, PascalCased.
pub open spec fn spec_object_name(segs: Seq<Seq<char>>) -> Seq<char> {
    pascal_of(spec_extract_object_name(spec_naming(segs).candidate.unwrap()))
}

/// The response component name: the PascalCased operation id with
/// `Response` appended.
pub open spec fn spec_response_object_name(method: Seq<char>, segs: Seq<Seq<char>>) -> Seq<char> {
    pascal_of(spec_operation_id(method, segs)) + "Response"@
}

impl RequestInfo {
    /// Classifies one sample: URL path to template and path parameters,
    /// method and literal segments to operation id, object name and
    /// response object name. An unparseable URL gives `MalformedUrl`; a
    /// path whose segments never set an object-name candidate gives
    /// `MissingObjectName`.
    pub fn from_request(request: &Request) -> (r: Result<RequestInfo, GenError>)
        ensures
            match url_path_of(request.url@) {
                None => r matches Err(e) && e == GenError::MalformedUrl,
                Some(p) => {
                    if spec_naming(effective_segments(p)).candidate is None {
                        r matches Err(e) && e == GenError::MissingObjectName
                    } else {
                        r matches Ok(info) && classified(info, request.url@, request.method@)
                    }
                },
            },
    {
        let path = match parse_url_path(request.url.as_str()) {
            Some(p) => p,
            None => {
                return Err(GenError::MalformedUrl);
            },
        };
        let raw = split_slash(path.as_str());
        let ghost parts = spec_split_slash(path@);

        // keep everything after the two leading segments, dropping empties
        let mut eff: Vec<String> = Vec::new();
        let mut i: usize = 2;
        if raw.len() >= 2 {
            while i < raw.len()
                invariant
                    2 <= i <= raw@.len(),
                    parts == seg_views(raw@),
                    seg_views(eff@) == parts.subrange(2, i as int).filter(
                        |t: Seq<char>| t.len() > 0,
                    ),
                    forall|k: int| 0 <= k < eff@.len() ==> #[trigger] eff@[k]@.len() > 0,
                decreases raw@.len() - i,
            {
                let ghost pre = parts.subrange(2, i as int);
                proof {
                    assert(parts.subrange(2, i + 1) =~= pre.push(parts[i as int]));
                    reveal_with_fuel(Seq::<_>::filter, 2);
                    assert(pre.push(parts[i as int]).drop_last() =~= pre);
                }
                if !raw[i].as_str().is_empty() {
                    let ghost prev = seg_views(eff@);
                    eff.push(raw[i].clone());
                    proof {
                        assert(seg_views(eff@) =~= prev.push(parts[i as int]));
                    }
                }
                i = i + 1;
            }
            proof {
                assert(parts.subrange(2, parts.len() as int) =~= parts.subrange(
                    2,
                    raw@.len() as int,
                ));
            }
        }
        let ghost segs = effective_segments(path@);
        proof {
            if parts.len() < 2 {
                assert(seg_views(eff@) =~= Seq::<Seq<char>>::empty());
            }
            assert(seg_views(eff@) == segs);
        }

        proof {
            reveal_strlit("list");
            reveal_strlit("all");
            reveal_strlit("id");
            reveal_strlit("/");
            reveal_strlit("{id}");
            reveal_strlit("Response");
        }

        let mut path_str = String::new();
        let mut op_text = String::new();
        let mut many = false;
        let mut candidate: Option<String> = None;
        let mut params: Vec<PathParameter> = Vec::new();
        let mut j: usize = 0;
        while j < eff.len()
            invariant
                j <= eff@.len(),
                seg_views(eff@) == segs,
                forall|k: int| 0 <= k < eff@.len() ==> #[trigger] eff@[k]@.len() > 0,
                path_str@ == spec_template(segs.subrange(0, j as int)),
                op_text@ == spec_naming(segs.subrange(0, j as int)).text,
                many == spec_naming(segs.subrange(0, j as int)).many,
                match candidate {
                    None => spec_naming(segs.subrange(0, j as int)).candidate is None,
                    Some(c) => spec_naming(segs.subrange(0, j as int)).candidate == Some(c@),
                },
                params@.len() == spec_param_count(segs.subrange(0, j as int)),
                forall|k: int|
                    0 <= k < params@.len() ==> (#[trigger] params@[k].name@ == "id"@
                        && params@[k].typ == ParameterType::Integer),
            decreases eff@.len() - j,
        {
            let ghost pre = segs.subrange(0, j as int);
            let ghost segv = segs[j as int];
            proof {
                reveal_strlit("list");
                reveal_strlit("all");
                reveal_strlit("id");
                reveal_strlit("/");
                reveal_strlit("{id}");
                assert(segs.subrange(0, j + 1) =~= pre.push(segv));
                assert(pre.push(segv).drop_last() =~= pre);
                assert(pre.push(segv).last() == segv);
                assert(eff@[j as int]@ == segv);
            }
            let seg = &eff[j];
            let slen = seg.as_str().unicode_len();
            let digits = str_is_digits(seg.as_str());
            path_str.append("/");
            if digits {
                path_str.append("{id}");
                params.push(
                    PathParameter { name: "id".to_owned(), typ: ParameterType::Integer },
                );
                proof {
                    assert(path_str@ =~= spec_template(pre.push(segv)));
                }
            } else {
                path_str.append(seg.as_str());
                proof {
                    assert(path_str@ =~= spec_template(pre.push(segv)));
                }
                if str_eq(seg.as_str(), "list") || str_eq(seg.as_str(), "all") {
                    many = true;
                } else {
                    let listy = str_ends_with(seg.as_str(), "list");
                    if listy {
                        let stem = seg.as_str().substring_char(0, slen - 4);
                        proof {
                            assert(stem@ =~= segv.subrange(0, segv.len() - 4));
                        }
                        if !plural(stem) {
                            many = true;
                            let pas = to_pascal_case(stem);
                            op_text.append(pas.as_str());
                            candidate = Some(stem.to_owned());
                        } else {
                            let first = seg.as_str().get_char(0);
                            if first != '{' {
                                let pas = to_pascal_case(seg.as_str());
                                op_text.append(pas.as_str());
                                candidate = Some(seg.clone());
                            }
                        }
                    } else {
                        let first = seg.as_str().get_char(0);
                        if first != '{' {
                            let pas = to_pascal_case(seg.as_str());
                            op_text.append(pas.as_str());
                            candidate = Some(seg.clone());
                        }
                    }
                }
            }
            j = j + 1;
        }
        proof {
            assert(segs.subrange(0, segs.len() as int) =~= segs);
        }

        let candidate = match candidate {
            Some(c) => c,
            None => {
                return Err(GenError::MissingObjectName);
            },
        };
        let extracted = match extract_object_name(candidate.as_str()) {
            Some(v) => v,
            None => {
                return Err(GenError::MissingObjectName);
            },
        };
        let object_name = to_pascal_case(extracted.as_str());
        let mut operation_id = to_snake_case(request.method.as_str());
        operation_id.append(op_text.as_str());
        if many {
            pluralize(&mut operation_id);
        }
        let mut response_object_name = to_pascal_case(operation_id.as_str());
        response_object_name.append("Response");
        Ok(
            RequestInfo {
                path: path_str,
                object_name,
                operation_id,
                response_object_name,
                method: request.method.clone(),
                path_parameters: params,
            },
        )
    }
}


/// The classification contract: what `info` must hold for a sample with
/// this URL and method.
pub open spec fn classified(info: RequestInfo, url: Seq<char>, method: Seq<char>) -> bool {
    match url_path_of(url) {
        None => false,
        Some(p) => {
            let segs = effective_segments(p);
            &&& spec_naming(segs).candidate is Some
            &&& info.path@ == spec_template(segs)
            &&& info.operation_id@ == spec_operation_id(method, segs)
            &&& info.object_name@ == spec_object_name(segs)
            &&& info.response_object_name@ == spec_response_object_name(method, segs)
            &&& info.method@ == method
            &&& info.path_parameters@.len() == spec_param_count(segs)
            &&& forall|j: int|
                0 <= j < info.path_parameters@.len() ==> (
                #[trigger] info.path_parameters@[j].name@ == "id"@
                    && info.path_parameters@[j].typ == ParameterType::Integer)
        },
    }
}

/// One classified sample: the derived naming beside the raw request and
/// response.
pub struct RequestResponse {
    pub info: RequestInfo,
    pub request: Request,
    pub response: Response,
}

impl RequestResponse {
    /// Classifies a sample from its request and response; fails as
    /// `from_request` does.
    pub fn new(request: Request, response: Response) -> (r: Result<RequestResponse, GenError>)
        ensures
            match url_path_of(request.url@) {
                None => r matches Err(e) && e == GenError::MalformedUrl,
                Some(p) => {
                    if spec_naming(effective_segments(p)).candidate is None {
                        r matches Err(e) && e == GenError::MissingObjectName
                    } else {
                        r matches Ok(rr) && {
                            &&& classified(rr.info, request.url@, request.method@)
                            &&& rr.request == request
                            &&& rr.response == response
                        }
                    }
                },
            },
    {
        let info = match RequestInfo::from_request(&request) {
            Ok(info) => info,
            Err(e) => {
                return Err(e);
            },
        };
        Ok(RequestResponse { info, request, response })
    }

    pub fn method(&self) -> (r: &str)
        ensures
            r@ == self.info.method@,
    {
        self.info.method.as_str()
    }

    pub fn path(&self) -> (r: &str)
        ensures
            r@ == self.info.path@,
    {
        self.info.path.as_str()
    }

    pub fn operation_id(&self) -> (r: &str)
        ensures
            r@ == self.info.operation_id@,
    {
        self.info.operation_id.as_str()
    }

    pub fn object_name(&self) -> (r: &str)
        ensures
            r@ == self.info.object_name@,
    {
        self.info.object_name.as_str()
    }

    pub fn response_object_name(&self) -> (r: &str)
        ensures
            r@ == self.info.response_object_name@,
    {
        self.info.response_object_name.as_str()
    }

    /// The document-internal reference path of the sample's response
    /// component.
    pub fn response_schema_ref(&self) -> (r: String)
        ensures
            r@ == "#/components/schemas/"@ + self.info.response_object_name@,
    {
        let mut r = String::new();
        r.append("#/components/schemas/");
        r.append(self.info.response_object_name.as_str());
        r
    }
}

} // verus!
