//! Planning: the whole decision for one item. Selection, filename
//! composition and downloader dispatch are chained into one or two
//! concrete downloader invocations, or the first error on the way.

use vstd::prelude::*;
use crate::dispatch::{
    build_invocation, headers_view, opt_string_view, spec_invocation_args, spec_route, strs,
    Downloader, Invocation,
};
use crate::filename::{compose_filename, spec_filename, template_view, title_of, unescaped_of};
use crate::model::{
    opt_headers, opt_string, ItemDescription, PlanError, Role, SchemaField,
};
use crate::selector::{
    forced_pred, forced_view, lemma_last_match, proto_pred, select_format, spec_select,
    spec_should_split, Selection,
};

verus! {

/// What one single-role pass plans for an item: the downloader to run and
/// its argument vector, or the first error on the way. Errors come in a
/// fixed order: a missing id, a missing title, then — with a format list —
/// a failed selection, or — without one — a missing url, then a missing
/// ext, and last a title that does not unescape.
pub open spec fn spec_plan_one(
    item: ItemDescription,
    role: Role,
    forced: Option<Seq<char>>,
    template: Option<Seq<char>>,
) -> Result<(Downloader, Seq<Seq<char>>), PlanError> {
    if item.id is None {
        Err(PlanError::Schema(SchemaField::Id))
    } else if title_of(item) is None {
        Err(PlanError::Schema(SchemaField::Title))
    } else {
        match item.formats {
            None => {
                if item.url is None {
                    Err(PlanError::Schema(SchemaField::Url))
                } else if item.ext is None {
                    Err(PlanError::Schema(SchemaField::Ext))
                } else if unescaped_of(title_of(item)->Some_0) is None {
                    Err(PlanError::UnescapeFailed)
                } else {
                    let tool = spec_route(opt_string(item.protocol), opt_string(item.container));
                    let fname = spec_filename(item, item.ext->Some_0@, template, role);
                    Ok(
                        (
                            tool,
                            spec_invocation_args(
                                tool,
                                opt_headers(item.http_headers),
                                item.url->Some_0@,
                                fname,
                            ),
                        ),
                    )
                }
            },
            Some(fs) => {
                match spec_select(fs@, role, forced) {
                    None => Err(PlanError::NoMatchingFormat),
                    Some(i) => {
                        let f = fs@[i];
                        if unescaped_of(title_of(item)->Some_0) is None {
                            Err(PlanError::UnescapeFailed)
                        } else {
                            let tool = spec_route(Some(f.protocol@), Some(f.container@));
                            let fname = spec_filename(item, f.ext@, template, role);
                            Ok(
                                (
                                    tool,
                                    spec_invocation_args(
                                        tool,
                                        opt_headers(f.http_headers),
                                        f.url@,
                                        fname,
                                    ),
                                ),
                            )
                        }
                    },
                }
            },
        }
    }
}

/// Plan one single-role download of an item. The split decision must
/// already have been taken: this pass never splits.
pub fn plan_single(
    item: &ItemDescription,
    role: Role,
    forced: Option<&String>,
    template: Option<&String>,
) -> (r: Result<Invocation, PlanError>)
    requires
        item.formats matches Some(fs) ==> !spec_should_split(fs@, role, forced_view(forced)),
    ensures
        match spec_plan_one(*item, role, forced_view(forced), template_view(template)) {
            Err(e) => r == Err::<Invocation, PlanError>(e),
            Ok(pair) => r matches Ok(inv) && inv.tool == pair.0 && strs(inv.args@) == pair.1,
        },
{
    if item.id.is_none() {
        return Err(PlanError::Schema(SchemaField::Id));
    }
    if item.fulltitle.is_none() && item.title.is_none() {
        return Err(PlanError::Schema(SchemaField::Title));
    }
    match select_format(item, role, forced) {
        Err(e) => Err(e),
        Ok(Selection::Split) => vstd::pervasive::unreached(),
        Ok(Selection::FromList(i)) => {
            match &item.formats {
                Some(fmts) => {
                    let n = fmts.len();
                    proof {
                        assert(n == fmts@.len());
                        lemma_last_match(fmts@, forced_pred(forced_view(forced)->Some_0));
                        lemma_last_match(fmts@, proto_pred(role, true));
                        lemma_last_match(fmts@, proto_pred(role, false));
                        assert(spec_select(fmts@, role, forced_view(forced)) matches Some(k) && 0
                            <= k < fmts@.len() && i == k);
                    }
                    let f = &fmts[i];
                    match compose_filename(item, &f.ext, template, role) {
                        Err(e) => Err(e),
                        Ok(fname) => {
                            let hdrs: Option<&Vec<crate::model::HttpHeader>> = match &f
                                .http_headers {
                                Some(h) => Some(h),
                                None => None,
                            };
                            let inv = build_invocation(
                                Some(&f.protocol),
                                Some(&f.container),
                                hdrs,
                                &f.url,
                                fname,
                            );
                            proof {
                                assert(headers_view(hdrs) == opt_headers(f.http_headers));
                            }
                            Ok(inv)
                        },
                    }
                },
                None => vstd::pervasive::unreached(),
            }
        },
        Ok(Selection::ItemItself) => {
            match &item.url {
                None => Err(PlanError::Schema(SchemaField::Url)),
                Some(url) => {
                    match &item.ext {
                        None => Err(PlanError::Schema(SchemaField::Ext)),
                        Some(ext) => {
                            match compose_filename(item, ext, template, role) {
                                Err(e) => Err(e),
                                Ok(fname) => {
                                    let proto: Option<&String> = match &item.protocol {
                                        Some(p) => Some(p),
                                        None => None,
                                    };
                                    let cont: Option<&String> = match &item.container {
                                        Some(c) => Some(c),
                                        None => None,
                                    };
                                    let hdrs: Option<&Vec<crate::model::HttpHeader>> = match &item
                                        .http_headers {
                                        Some(h) => Some(h),
                                        None => None,
                                    };
                                    let inv = build_invocation(proto, cont, hdrs, url, fname);
                                    proof {
                                        assert(opt_string_view(proto) == opt_string(item.protocol));
                                        assert(opt_string_view(cont) == opt_string(item.container));
                                        assert(headers_view(hdrs) == opt_headers(
                                            item.http_headers,
                                        ));
                                    }
                                    Ok(inv)
                                },
                            }
                        },
                    }
                },
            }
        },
    }
}

/// Plan every download of one item: one invocation, or — when the
/// audio/video split applies — an audio-only one followed by a video-only
/// one. A failure of any pass fails the whole item.
pub fn plan_item(
    item: &ItemDescription,
    role: Role,
    forced: Option<&String>,
    template: Option<&String>,
) -> (r: Result<Vec<Invocation>, PlanError>)
    ensures
        item.formats is None ==> plan_matches_one(
            r,
            spec_plan_one(*item, role, forced_view(forced), template_view(template)),
        ),
        item.formats matches Some(fs) ==> (!spec_should_split(fs@, role, forced_view(forced))
            ==> plan_matches_one(
            r,
            spec_plan_one(*item, role, forced_view(forced), template_view(template)),
        )),
        item.formats matches Some(fs) ==> (spec_should_split(fs@, role, forced_view(forced))
            ==> plan_matches_split(
            r,
            spec_plan_one(*item, Role::AudioOnly, forced_view(forced), template_view(template)),
            spec_plan_one(*item, Role::VideoOnly, forced_view(forced), template_view(template)),
        )),
{
    let split = match select_format(item, role, forced) {
        Ok(Selection::Split) => true,
        _ => false,
    };
    if split {
        match plan_single(item, Role::AudioOnly, forced, template) {
            Err(e) => Err(e),
            Ok(a) => match plan_single(item, Role::VideoOnly, forced, template) {
                Err(e) => Err(e),
                Ok(b) => {
                    let mut v: Vec<Invocation> = Vec::new();
                    v.push(a);
                    v.push(b);
                    Ok(v)
                },
            },
        }
    } else {
        match plan_single(item, role, forced, template) {
            Err(e) => Err(e),
            Ok(p) => {
                let mut v: Vec<Invocation> = Vec::new();
                v.push(p);
                Ok(v)
            },
        }
    }
}

/// The planned result matches one single-role plan.
pub open spec fn plan_matches_one(
    r: Result<Vec<Invocation>, PlanError>,
    one: Result<(Downloader, Seq<Seq<char>>), PlanError>,
) -> bool {
    match one {
        Err(e) => r == Err::<Vec<Invocation>, PlanError>(e),
        Ok(pair) => r matches Ok(v) && v@.len() == 1 && v@[0].tool == pair.0 && strs(v@[0].args@)
            == pair.1,
    }
}

/// The planned result matches a split: the audio pass first, the video
/// pass second, and the first failure of either fails the whole item.
pub open spec fn plan_matches_split(
    r: Result<Vec<Invocation>, PlanError>,
    audio: Result<(Downloader, Seq<Seq<char>>), PlanError>,
    video: Result<(Downloader, Seq<Seq<char>>), PlanError>,
) -> bool {
    match audio {
        Err(e) => r == Err::<Vec<Invocation>, PlanError>(e),
        Ok(a) => match video {
            Err(e) => r == Err::<Vec<Invocation>, PlanError>(e),
            Ok(b) => r matches Ok(v) && v@.len() == 2 && v@[0].tool == a.0 && strs(v@[0].args@)
                == a.1 && v@[1].tool == b.0 && strs(v@[1].args@) == b.1,
        },
    }
}

/// Law: a metadata document with no format list but a top-level url and
/// ext is treated as a single implicit format, and — as long as its title
/// unescapes cleanly — planned without error.
pub proof fn lemma_generic_item_plans(
    item: ItemDescription,
    role: Role,
    forced: Option<Seq<char>>,
    template: Option<Seq<char>>,
)
    requires
        item.formats is None,
        item.id is Some,
        title_of(item) is Some,
        item.url is Some,
        item.ext is Some,
    ensures
        unescaped_of(title_of(item)->Some_0) is Some ==> spec_plan_one(
            item,
            role,
            forced,
            template,
        ) is Ok,
{
}

} // verus!
