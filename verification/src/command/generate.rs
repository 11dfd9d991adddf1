//! Generating the document from a batch of samples: the shared server URL,
//! the response schema components, and one operation per sample.

use vstd::prelude::*;
use vstd::string::*;
use crate::strutil::{starts_with, str_prefix, ends_with};
use crate::http::RequestResponse;
use crate::openapi::components::{Components, contains_name};
use crate::openapi::operation::{Paths, spec_add_all, create_paths, paths_wf, lemma_add_all_wf};
use crate::openapi::response::{create_schema_for_responses, spec_add_responses};

verus! {

broadcast use vstd::std_specs::vec::group_vec_axioms, vstd::seq::group_seq_axioms;

pub struct Generate {
    pub har_file: String,
    /// Adds cookie authentication: a security scheme requiring a cookie of
    /// this name.
    pub cookie: Option<String>,
    pub output: Option<String>,
}

/// The assembled document: the shared base URL, the path map, the named
/// schema components, and the optional cookie security scheme.
pub struct Document {
    pub server: String,
    pub paths: Paths,
    pub components: Components,
    pub security_cookie: Option<String>,
}

pub open spec fn is_common_prefix(p: Seq<char>, strs: Seq<Seq<char>>) -> bool {
    forall|i: int| 0 <= i < strs.len() ==> starts_with(#[trigger] strs[i], p)
}

/// The longest common prefix of the given strings; empty for an empty
/// list. No common prefix is longer, and the result prefixes every input.
pub fn longest_common_prefix(strings: &Vec<String>) -> (r: String)
    ensures
        strings@.len() == 0 ==> r@ == Seq::<char>::empty(),
        strings@.len() > 0 ==> {
            &&& is_common_prefix(r@, strings.deep_view())
            &&& forall|p: Seq<char>|
                is_common_prefix(p, strings.deep_view()) ==> p.len() <= r@.len()
        },
{
    if strings.len() == 0 {
        return String::new();
    }
    let ghost views = strings.deep_view();
    let mut plen: usize = strings[0].as_str().unicode_len();
    let mut k: usize = 1;
    proof {
        assert(views[0] == strings@[0]@);
        assert(views[0].subrange(0, plen as int) =~= views[0]);
        assert forall|p: Seq<char>|
            is_common_prefix(p, views.subrange(0, 1)) implies p.len() <= plen by {
            assert(views.subrange(0, 1)[0] == views[0]);
            assert(starts_with(views[0], p));
        }
    }
    while k < strings.len()
        invariant
            1 <= k <= strings@.len(),
            strings@.len() > 0,
            views == strings.deep_view(),
            plen <= views[0].len(),
            is_common_prefix(views[0].subrange(0, plen as int), views.subrange(0, k as int)),
            forall|p: Seq<char>|
                is_common_prefix(p, views.subrange(0, k as int)) ==> p.len() <= plen,
        decreases strings@.len() - k,
    {
        let s = &strings[k];
        let slen = s.as_str().unicode_len();
        let mut i: usize = 0;
        let mut stop = false;
        while i < plen && i < slen && !stop
            invariant
                k < strings@.len(),
                views == strings.deep_view(),
                plen <= views[0].len(),
                slen == views[k as int].len(),
                s == strings@[k as int],
                i <= plen,
                i <= slen,
                forall|j: int| 0 <= j < i ==> views[0][j] == views[k as int][j],
                stop ==> i < plen && i < slen && views[0][i as int] != views[k as int][i as int],
            decreases plen - i + (if stop { 0int } else { 1int }),
        {
            let a = strings[0].as_str().get_char(i);
            let b = s.as_str().get_char(i);
            if a == b {
                i = i + 1;
            } else {
                stop = true;
            }
        }
        proof {
            let newp = views[0].subrange(0, i as int);
            assert(starts_with(views[k as int], newp)) by {
                assert(views[k as int].subrange(0, i as int) =~= newp);
            }
            assert forall|p: Seq<char>|
                is_common_prefix(p, views.subrange(0, k + 1)) implies p.len() <= i by {
                assert(views.subrange(0, k + 1)[0] == views[0]);
                assert(views.subrange(0, k + 1)[k as int] == views[k as int]);
                assert(starts_with(views[0], p));
                assert(starts_with(views[k as int], p));
                assert(is_common_prefix(p, views.subrange(0, k as int))) by {
                    assert forall|j: int| 0 <= j < k implies starts_with(
                        #[trigger] views.subrange(0, k as int)[j],
                        p,
                    ) by {
                        assert(views.subrange(0, k as int)[j] == views.subrange(0, k + 1)[j]);
                    }
                }
                if p.len() > i {
                    assert(p.len() <= plen);
                    assert(p.len() <= slen);
                    assert(stop);
                    assert(p[i as int] == views[0].subrange(0, p.len() as int)[i as int]);
                    assert(p[i as int] == views[0][i as int]);
                    assert(p[i as int] == views[k as int].subrange(0, p.len() as int)[i as int]);
                    assert(p[i as int] == views[k as int][i as int]);
                }
            }
            assert forall|j: int| 0 <= j < k + 1 implies starts_with(
                #[trigger] views.subrange(0, k + 1)[j],
                newp,
            ) by {
                if j < k {
                    let oldp = views[0].subrange(0, plen as int);
                    assert(views.subrange(0, k as int)[j] == views[j]);
                    assert(starts_with(views[j], oldp));
                    assert(views[j].subrange(0, i as int) =~= newp);
                    assert forall|x: int| 0 <= x < i implies views[j][x] == newp[x] by {
                        assert(views[j].subrange(0, plen as int)[x] == views[j][x]);
                    }
                    assert(views[j].subrange(0, i as int) =~= newp);
                }
            }
        }
        plen = i;
        k = k + 1;
    }
    proof {
        assert(views.subrange(0, views.len() as int) =~= views);
    }
    let r = str_prefix(strings[0].as_str(), plen);
    r
}

/// Assembles the document for one batch of samples: the server is the
/// longest common prefix of the sample URLs with one trailing slash
/// trimmed, every sample's response component is registered, and the path
/// map holds the samples' operations in order, later writes winning.
pub fn build_document(rrs: &Vec<RequestResponse>, cookie: Option<String>) -> (r: Document)
    ensures
        ({
            let urls = rrs@.map_values(|rr: RequestResponse| rr.request.url@);
            rrs@.len() > 0 ==> exists|p: Seq<char>|
                {
                    &&& #[trigger] is_common_prefix(p, urls)
                    &&& forall|q: Seq<char>| is_common_prefix(q, urls) ==> q.len() <= p.len()
                    &&& r.server@ == (if ends_with(p, "/"@) {
                        p.drop_last()
                    } else {
                        p
                    })
                }
        }),
        r.paths.view_entries() == spec_add_all(Seq::<_>::empty(), rrs@),
        paths_wf(r.paths.view_entries()),
        r.components.entries() == spec_add_responses(Seq::<_>::empty(), rrs@),
        r.components.wf(),
        forall|i: int|
            0 <= i < rrs@.len() ==> contains_name(
                r.components.entries(),
                #[trigger] rrs@[i].info.response_object_name@,
            ),
        r.security_cookie == cookie,
{
    proof {
        reveal_strlit("/");
    }
    let mut urls: Vec<String> = Vec::new();
    let mut i: usize = 0;
    while i < rrs.len()
        invariant
            i <= rrs@.len(),
            urls.deep_view() == rrs@.subrange(0, i as int).map_values(
                |rr: RequestResponse| rr.request.url@,
            ),
        decreases rrs@.len() - i,
    {
        let ghost prev = urls.deep_view();
        urls.push(rrs[i].request.url.clone());
        proof {
            assert(rrs@.subrange(0, i + 1) =~= rrs@.subrange(0, i as int).push(rrs@[i as int]));
            assert(urls.deep_view() =~= prev.push(rrs@[i as int].request.url@));
            assert(urls.deep_view() =~= rrs@.subrange(0, i + 1).map_values(
                |rr: RequestResponse| rr.request.url@,
            ));
        }
        i = i + 1;
    }
    proof {
        assert(rrs@.subrange(0, rrs@.len() as int) =~= rrs@);
    }
    let mut server = longest_common_prefix(&urls);
    let slen = server.as_str().unicode_len();
    if slen > 0 && server.as_str().get_char(slen - 1) == '/' {
        let t = str_prefix(server.as_str(), slen - 1);
        proof {
            assert(server@.subrange(0, server@.len() - 1) =~= server@.drop_last());
            assert(server@.subrange(server@.len() - 1, server@.len() as int) =~= "/"@);
        }
        server = t;
    } else {
        proof {
            if server@.len() > 0 {
                assert(!ends_with(server@, "/"@)) by {
                    if ends_with(server@, "/"@) {
                        assert(server@.subrange(server@.len() - 1, server@.len() as int)[0]
                            == server@[server@.len() - 1]);
                    }
                }
            }
        }
    }

    let mut components = Components::new();
    create_schema_for_responses(rrs, &mut components);
    let mut paths = Paths::new();
    let _ = create_paths(rrs, &mut paths);
    proof {
        lemma_add_all_wf(Seq::<_>::empty(), rrs@);
    }
    Document { server, paths, components, security_cookie: cookie }
}

} // verus!
