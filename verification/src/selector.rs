//! Format selection: classify the formats of an item, decide whether to
//! split audio and video into two downloads, honour an explicit format-id
//! override, and otherwise pick by protocol preference with a
//! last-match-wins tie break.

use vstd::prelude::*;
use crate::model::{FormatDescription, ItemDescription, PlanError, Role};
use crate::text::{starts_with, str_eq, str_starts_with};

verus! {

/// An audio-carrying format: `audio_ext` present and not `"none"`.
pub open spec fn is_audio_only(f: FormatDescription) -> bool {
    f.audio_ext matches Some(e) && e@ != "none"@
}

/// A video-carrying format: `video_ext` present and not `"none"`.
pub open spec fn is_video_only(f: FormatDescription) -> bool {
    f.video_ext matches Some(e) && e@ != "none"@
}

/// Whether a format may serve the requested role.
pub open spec fn role_matches(f: FormatDescription, role: Role) -> bool {
    match role {
        Role::Both => true,
        Role::AudioOnly => is_audio_only(f),
        Role::VideoOnly => is_video_only(f),
    }
}

/// Adaptive-stream protocol family: the protocol starts with `"m3u8"`.
pub open spec fn is_m3u8(f: FormatDescription) -> bool {
    starts_with(f.protocol@, "m3u8"@)
}

/// Progressive protocol family: the protocol starts with `"http"` or is
/// the empty string.
pub open spec fn is_http_like(f: FormatDescription) -> bool {
    starts_with(f.protocol@, "http"@) || f.protocol@.len() == 0
}

/// The predicate of the explicit-override filter: the format id equals the
/// forced id.
pub open spec fn forced_pred(fid: Seq<char>) -> spec_fn(FormatDescription) -> bool {
    |f: FormatDescription| f.format_id@ == fid
}

/// The predicate of the ranking filter: the format serves the role and
/// belongs to the adaptive (`hls` true) or progressive (`hls` false)
/// protocol family.
pub open spec fn proto_pred(role: Role, hls: bool) -> spec_fn(FormatDescription) -> bool {
    |f: FormatDescription| role_matches(f, role) && if hls {
        is_m3u8(f)
    } else {
        is_http_like(f)
    }
}

/// Index of the last element of `s` satisfying `p`, if any.
pub open spec fn last_match(
    s: Seq<FormatDescription>,
    p: spec_fn(FormatDescription) -> bool,
) -> Option<int>
    decreases s.len(),
{
    if s.len() == 0 {
        None
    } else if p(s.last()) {
        Some(s.len() - 1)
    } else {
        last_match(s.drop_last(), p)
    }
}

/// `last_match` finds an index exactly when some element matches, and the
/// index it finds is the last matching one.
pub proof fn lemma_last_match(s: Seq<FormatDescription>, p: spec_fn(FormatDescription) -> bool)
    ensures
        (last_match(s, p) is Some) <==> exists|i: int| 0 <= i < s.len() && p(#[trigger] s[i]),
        last_match(s, p) matches Some(i) ==> 0 <= i < s.len() && p(s[i]) && forall|j: int|
            i < j < s.len() ==> !p(#[trigger] s[j]),
    decreases s.len(),
{
    if s.len() > 0 {
        if p(s.last()) {
        } else {
            lemma_last_match(s.drop_last(), p);
            if exists|i: int| 0 <= i < s.len() && p(#[trigger] s[i]) {
                let i = choose|i: int| 0 <= i < s.len() && p(#[trigger] s[i]);
                assert(i < s.len() - 1);
                assert(s.drop_last()[i] == s[i]);
            }
            if last_match(s.drop_last(), p) is Some {
                let i = last_match(s.drop_last(), p)->Some_0;
                assert(s.drop_last()[i] == s[i]);
                assert forall|j: int| i < j < s.len() implies !p(#[trigger] s[j]) by {
                    if j < s.len() - 1 {
                        assert(s.drop_last()[j] == s[j]);
                    } else {
                        assert(s[j] == s.last());
                    }
                }
            }
        }
    }
}

/// The audio/video split applies: role `Both`, no override, and the list
/// holds at least one audio-only and one video-only format.
pub open spec fn spec_should_split(
    fmts: Seq<FormatDescription>,
    role: Role,
    forced: Option<Seq<char>>,
) -> bool {
    &&& role is Both
    &&& forced is None
    &&& exists|i: int| 0 <= i < fmts.len() && is_audio_only(#[trigger] fmts[i])
    &&& exists|i: int| 0 <= i < fmts.len() && is_video_only(#[trigger] fmts[i])
}

/// The index the selector picks from a format list, if any: the last format
/// with the forced id when an override is active; otherwise the last
/// role-matching adaptive-stream format, and failing that the last
/// role-matching progressive one.
pub open spec fn spec_select(
    fmts: Seq<FormatDescription>,
    role: Role,
    forced: Option<Seq<char>>,
) -> Option<int> {
    match forced {
        Some(fid) => last_match(fmts, forced_pred(fid)),
        None => match last_match(fmts, proto_pred(role, true)) {
            Some(i) => Some(i),
            None => last_match(fmts, proto_pred(role, false)),
        },
    }
}

/// The ghost value of the optional forced format id.
pub open spec fn forced_view(forced: Option<&String>) -> Option<Seq<char>> {
    match forced {
        Some(s) => Some(s@),
        None => None,
    }
}

/// What the selector decided for one item and role.
#[derive(Clone, Copy, PartialEq, Eq, Structural, Debug)]
pub enum Selection {
    /// Download audio and video separately instead.
    Split,
    /// Download the format at this index of the item's format list.
    FromList(usize),
    /// The item has no format list; the item itself is the format.
    ItemItself,
}

fn is_audio_only_exec(f: &FormatDescription) -> (r: bool)
    ensures
        r == is_audio_only(*f),
{
    match &f.audio_ext {
        Some(e) => !str_eq(e.as_str(), "none"),
        None => false,
    }
}

fn is_video_only_exec(f: &FormatDescription) -> (r: bool)
    ensures
        r == is_video_only(*f),
{
    match &f.video_ext {
        Some(e) => !str_eq(e.as_str(), "none"),
        None => false,
    }
}

fn role_matches_exec(f: &FormatDescription, role: Role) -> (r: bool)
    ensures
        r == role_matches(*f, role),
{
    match role {
        Role::Both => true,
        Role::AudioOnly => is_audio_only_exec(f),
        Role::VideoOnly => is_video_only_exec(f),
    }
}

fn has_audio_only(fmts: &Vec<FormatDescription>) -> (r: bool)
    ensures
        r == exists|i: int| 0 <= i < fmts@.len() && is_audio_only(#[trigger] fmts@[i]),
{
    let mut k: usize = 0;
    while k < fmts.len()
        invariant
            0 <= k <= fmts@.len(),
            forall|i: int| 0 <= i < k ==> !is_audio_only(#[trigger] fmts@[i]),
        decreases fmts@.len() - k,
    {
        if is_audio_only_exec(&fmts[k]) {
            return true;
        }
        k = k + 1;
    }
    false
}

fn has_video_only(fmts: &Vec<FormatDescription>) -> (r: bool)
    ensures
        r == exists|i: int| 0 <= i < fmts@.len() && is_video_only(#[trigger] fmts@[i]),
{
    let mut k: usize = 0;
    while k < fmts.len()
        invariant
            0 <= k <= fmts@.len(),
            forall|i: int| 0 <= i < k ==> !is_video_only(#[trigger] fmts@[i]),
        decreases fmts@.len() - k,
    {
        if is_video_only_exec(&fmts[k]) {
            return true;
        }
        k = k + 1;
    }
    false
}

fn find_last_forced(fmts: &Vec<FormatDescription>, forced: &String) -> (r: Option<usize>)
    ensures
        r matches Some(i) ==> last_match(fmts@, forced_pred(forced@)) == Some(i as int),
        r is None ==> last_match(fmts@, forced_pred(forced@)) is None,
{
    let mut i: usize = fmts.len();
    proof {
        assert(fmts@.take(i as int) =~= fmts@);
    }
    while i > 0
        invariant
            i <= fmts@.len(),
            last_match(fmts@, forced_pred(forced@)) == last_match(
                fmts@.take(i as int),
                forced_pred(forced@),
            ),
        decreases i,
    {
        i = i - 1;
        proof {
            assert(fmts@.take(i + 1).last() == fmts@[i as int]);
            assert(fmts@.take(i + 1).drop_last() =~= fmts@.take(i as int));
        }
        if str_eq(fmts[i].format_id.as_str(), forced.as_str()) {
            return Some(i);
        }
    }
    None
}

fn find_last_proto(fmts: &Vec<FormatDescription>, role: Role, hls: bool) -> (r: Option<usize>)
    ensures
        r matches Some(i) ==> last_match(fmts@, proto_pred(role, hls)) == Some(i as int),
        r is None ==> last_match(fmts@, proto_pred(role, hls)) is None,
{
    let mut i: usize = fmts.len();
    proof {
        assert(fmts@.take(i as int) =~= fmts@);
    }
    while i > 0
        invariant
            i <= fmts@.len(),
            last_match(fmts@, proto_pred(role, hls)) == last_match(
                fmts@.take(i as int),
                proto_pred(role, hls),
            ),
        decreases i,
    {
        i = i - 1;
        proof {
            assert(fmts@.take(i + 1).last() == fmts@[i as int]);
            assert(fmts@.take(i + 1).drop_last() =~= fmts@.take(i as int));
        }
        let in_family = if hls {
            str_starts_with(fmts[i].protocol.as_str(), "m3u8")
        } else {
            str_starts_with(fmts[i].protocol.as_str(), "http") || fmts[i].protocol.unicode_len()
                == 0
        };
        if in_family && role_matches_exec(&fmts[i], role) {
            return Some(i);
        }
    }
    None
}

/// Law: protocol preference. In a format list holding at least one
/// adaptive-stream (`"m3u8"`-prefixed) format and at least one progressive
/// (`"http"`-prefixed or empty-protocol) one, selection with role `Both`
/// and no override picks the last adaptive-stream format in list order —
/// never a progressive one.
pub proof fn lemma_prefers_adaptive(fmts: Seq<FormatDescription>)
    requires
        exists|i: int| 0 <= i < fmts.len() && is_m3u8(#[trigger] fmts[i]),
        exists|i: int| 0 <= i < fmts.len() && is_http_like(#[trigger] fmts[i]),
    ensures
        spec_select(fmts, Role::Both, None) is Some,
        ({
            let k = spec_select(fmts, Role::Both, None)->Some_0;
            &&& 0 <= k < fmts.len()
            &&& is_m3u8(fmts[k])
            &&& forall|j: int| k < j < fmts.len() ==> !is_m3u8(#[trigger] fmts[j])
        }),
{
    let p = proto_pred(Role::Both, true);
    let w = choose|i: int| 0 <= i < fmts.len() && is_m3u8(#[trigger] fmts[i]);
    assert(p(fmts[w]));
    lemma_last_match(fmts, p);
    let k = last_match(fmts, p)->Some_0;
    assert(is_m3u8(fmts[k]));
    assert forall|j: int| k < j < fmts.len() implies !is_m3u8(#[trigger] fmts[j]) by {
        assert(!p(fmts[j]));
    }
}

/// Law: progressive fallback. In a format list with no adaptive-stream
/// format but at least one progressive (`"http"`-prefixed or
/// empty-protocol) one, selection with role `Both` and no override picks
/// the last progressive format in list order.
pub proof fn lemma_progressive_fallback(fmts: Seq<FormatDescription>)
    requires
        forall|i: int| 0 <= i < fmts.len() ==> !is_m3u8(#[trigger] fmts[i]),
        exists|i: int| 0 <= i < fmts.len() && is_http_like(#[trigger] fmts[i]),
    ensures
        spec_select(fmts, Role::Both, None) is Some,
        ({
            let k = spec_select(fmts, Role::Both, None)->Some_0;
            &&& 0 <= k < fmts.len()
            &&& is_http_like(fmts[k])
            &&& forall|j: int| k < j < fmts.len() ==> !is_http_like(#[trigger] fmts[j])
        }),
{
    let pm = proto_pred(Role::Both, true);
    lemma_last_match(fmts, pm);
    if last_match(fmts, pm) is Some {
        let i = last_match(fmts, pm)->Some_0;
        assert(pm(fmts[i]));
        assert(false);
    }
    let ph = proto_pred(Role::Both, false);
    let w = choose|i: int| 0 <= i < fmts.len() && is_http_like(#[trigger] fmts[i]);
    assert(ph(fmts[w]));
    lemma_last_match(fmts, ph);
    let k = last_match(fmts, ph)->Some_0;
    assert(is_http_like(fmts[k]));
    assert forall|j: int| k < j < fmts.len() implies !is_http_like(#[trigger] fmts[j]) by {
        assert(!ph(fmts[j]));
    }
}

/// Law: explicit override. When a forced format id matches exactly one
/// format, selection under any role returns that format — whatever its
/// protocol class — and the audio/video split does not apply.
pub proof fn lemma_override_selects_match(
    fmts: Seq<FormatDescription>,
    fid: Seq<char>,
    role: Role,
    i: int,
)
    requires
        0 <= i < fmts.len(),
        fmts[i].format_id@ == fid,
        forall|j: int| 0 <= j < fmts.len() && j != i ==> (#[trigger] fmts[j]).format_id@ != fid,
    ensures
        !spec_should_split(fmts, role, Some(fid)),
        spec_select(fmts, role, Some(fid)) == Some(i),
{
    let p = forced_pred(fid);
    assert(p(fmts[i]));
    lemma_last_match(fmts, p);
    let k = last_match(fmts, p)->Some_0;
    assert(p(fmts[k]));
    assert(k == i);
}

/// Law: the audio/video split. With role `Both` and no override, a format
/// list holding at least one audio-only and one video-only format is
/// always split, and the two single-role selections that replace it are
/// drawn from the matching class: whatever index the audio pass picks is
/// an audio-only format, and likewise for video.
pub proof fn lemma_split_roles(fmts: Seq<FormatDescription>)
    requires
        exists|i: int| 0 <= i < fmts.len() && is_audio_only(#[trigger] fmts[i]),
        exists|i: int| 0 <= i < fmts.len() && is_video_only(#[trigger] fmts[i]),
    ensures
        spec_should_split(fmts, Role::Both, None),
        spec_select(fmts, Role::AudioOnly, None) matches Some(k) ==> 0 <= k < fmts.len()
            && is_audio_only(fmts[k]),
        spec_select(fmts, Role::VideoOnly, None) matches Some(k) ==> 0 <= k < fmts.len()
            && is_video_only(fmts[k]),
{
    lemma_last_match(fmts, proto_pred(Role::AudioOnly, true));
    lemma_last_match(fmts, proto_pred(Role::AudioOnly, false));
    lemma_last_match(fmts, proto_pred(Role::VideoOnly, true));
    lemma_last_match(fmts, proto_pred(Role::VideoOnly, false));
    if spec_select(fmts, Role::AudioOnly, None) is Some {
        let k = spec_select(fmts, Role::AudioOnly, None)->Some_0;
        if last_match(fmts, proto_pred(Role::AudioOnly, true)) is Some {
            assert(proto_pred(Role::AudioOnly, true)(fmts[k]));
        } else {
            assert(proto_pred(Role::AudioOnly, false)(fmts[k]));
        }
    }
    if spec_select(fmts, Role::VideoOnly, None) is Some {
        let k = spec_select(fmts, Role::VideoOnly, None)->Some_0;
        if last_match(fmts, proto_pred(Role::VideoOnly, true)) is Some {
            assert(proto_pred(Role::VideoOnly, true)(fmts[k]));
        } else {
            assert(proto_pred(Role::VideoOnly, false)(fmts[k]));
        }
    }
}

/// Decide what to download for one item under the given role and optional
/// forced format id.
///
/// An item without a format list is its own implicit format. Otherwise,
/// when the split applies (role `Both`, no override, both an audio-only
/// and a video-only format present) the caller is told to run the
/// selection once per single role; otherwise the pick is the index
/// `spec_select` describes, and its absence is a selection failure.
pub fn select_format(item: &ItemDescription, role: Role, forced: Option<&String>) -> (r: Result<
    Selection,
    PlanError,
>)
    ensures
        item.formats is None ==> r == Ok::<Selection, PlanError>(Selection::ItemItself),
        item.formats matches Some(fs) ==> if spec_should_split(fs@, role, forced_view(forced)) {
            r == Ok::<Selection, PlanError>(Selection::Split)
        } else {
            match spec_select(fs@, role, forced_view(forced)) {
                Some(i) => r == Ok::<Selection, PlanError>(Selection::FromList(i as usize)),
                None => r == Err::<Selection, PlanError>(PlanError::NoMatchingFormat),
            }
        },
{
    match &item.formats {
        None => Ok(Selection::ItemItself),
        Some(fmts) => {
            let split = match (role, &forced) {
                (Role::Both, None) => has_audio_only(fmts) && has_video_only(fmts),
                _ => false,
            };
            if split {
                Ok(Selection::Split)
            } else {
                match forced {
                    Some(fid) => match find_last_forced(fmts, fid) {
                        Some(i) => Ok(Selection::FromList(i)),
                        None => Err(PlanError::NoMatchingFormat),
                    },
                    None => match find_last_proto(fmts, role, true) {
                        Some(i) => Ok(Selection::FromList(i)),
                        None => match find_last_proto(fmts, role, false) {
                            Some(i) => Ok(Selection::FromList(i)),
                            None => Err(PlanError::NoMatchingFormat),
                        },
                    },
                }
            }
        },
    }
}

} // verus!
