//! Filename composition: unescape and truncate the title, fill a
//! user-supplied template (`%t`, `%i`, `%e`) or the default
//! `<id>-<title>.<ext>` pattern, append the role suffix, and insert the
//! playlist sequence suffix.

use vstd::prelude::*;
use crate::model::{ItemDescription, PlanError, Role, SchemaField};
use crate::text::push_char;

verus! {

/// What `unescape::unescape` returns for a given text, when it succeeds.
pub uninterp spec fn unescaped_of(s: Seq<char>) -> Option<Seq<char>>;

/// Relies on `unescape::unescape`: decodes backslash escape sequences
/// (`\n`, `\t`, `\uXXXX`, ...) written out literally in the text, failing
/// on a malformed escape. The result depends on the characters alone, and
/// a text holding no backslash at all is returned unchanged.
#[verifier::external_body]
fn unescape_text(s: &str) -> (r: Option<String>)
    ensures
        (r is Some) == (unescaped_of(s@) is Some),
        r is Some ==> unescaped_of(s@) == Some(r->Some_0@),
        (forall|i: int| 0 <= i < s@.len() ==> s@[i] != '\\') ==> r is Some && r->Some_0@ == s@,
{
    unescape::unescape(s)
}

/// The first `n` characters of `s`, or all of `s` when it is shorter.
pub open spec fn truncated(s: Seq<char>, n: nat) -> Seq<char> {
    if s.len() <= n {
        s
    } else {
        s.take(n as int)
    }
}

/// Truncate a text to at most `n` characters. Titles are capped at 128
/// characters before they enter a filename, so a 200-character title
/// leaves exactly 128.
pub fn truncate_chars(s: &str, n: usize) -> (r: String)
    ensures
        r@ == truncated(s@, n as nat),
{
    let len = s.unicode_len();
    if len <= n {
        s.to_owned()
    } else {
        s.substring_char(0, n).to_owned()
    }
}

/// The template with each `%t` replaced by `title`, `%i` by `id` and `%e`
/// by `ext`, scanned left to right; a `%` that does not open a recognized
/// placeholder passes through unchanged.
pub open spec fn substituted(
    tpl: Seq<char>,
    title: Seq<char>,
    id: Seq<char>,
    ext: Seq<char>,
) -> Seq<char>
    decreases tpl.len(),
{
    if tpl.len() == 0 {
        Seq::empty()
    } else if tpl.len() >= 2 && tpl[0] == '%' && tpl[1] == 't' {
        title + substituted(tpl.skip(2), title, id, ext)
    } else if tpl.len() >= 2 && tpl[0] == '%' && tpl[1] == 'i' {
        id + substituted(tpl.skip(2), title, id, ext)
    } else if tpl.len() >= 2 && tpl[0] == '%' && tpl[1] == 'e' {
        ext + substituted(tpl.skip(2), title, id, ext)
    } else {
        seq![tpl[0]] + substituted(tpl.skip(1), title, id, ext)
    }
}

/// Fill a filename template: substitute `%t`, `%i` and `%e`.
pub fn apply_template(tpl: &str, title: &str, id: &str, ext: &str) -> (r: String)
    ensures
        r@ == substituted(tpl@, title@, id@, ext@),
{
    let n = tpl.unicode_len();
    let mut out = String::new();
    let mut i: usize = 0;
    proof {
        assert(tpl@.skip(0) =~= tpl@);
        assert(out@ + substituted(tpl@, title@, id@, ext@) =~= substituted(
            tpl@,
            title@,
            id@,
            ext@,
        ));
    }
    while i < n
        invariant
            0 <= i <= n,
            n == tpl@.len(),
            out@ + substituted(tpl@.skip(i as int), title@, id@, ext@) == substituted(
                tpl@,
                title@,
                id@,
                ext@,
            ),
        decreases n - i,
    {
        let ghost rest = tpl@.skip(i as int);
        let ghost whole = substituted(tpl@, title@, id@, ext@);
        proof {
            assert(rest[0] == tpl@[i as int]);
        }
        let c = tpl.get_char(i);
        let mut step: usize = 1;
        if c == '%' && i + 1 < n {
            proof {
                assert(rest[1] == tpl@[i as int + 1]);
            }
            let d = tpl.get_char(i + 1);
            if d == 't' {
                out.append(title);
                step = 2;
            } else if d == 'i' {
                out.append(id);
                step = 2;
            } else if d == 'e' {
                out.append(ext);
                step = 2;
            } else {
                push_char(&mut out, c);
            }
        } else {
            push_char(&mut out, c);
        }
        proof {
            if step == 2 {
                assert(rest.skip(2) =~= tpl@.skip(i + 2));
            } else {
                assert(rest.skip(1) =~= tpl@.skip(i + 1));
                assert(out@ + substituted(tpl@.skip(i + 1), title@, id@, ext@) =~= whole);
            }
        }
        i = i + step;
    }
    proof {
        assert(substituted(tpl@.skip(i as int), title@, id@, ext@) =~= Seq::<char>::empty());
        assert(out@ =~= substituted(tpl@, title@, id@, ext@));
    }
    out
}

/// The filesystem-safe form of a default-pattern name: every space and
/// forward slash becomes an underscore.
pub open spec fn sanitized(s: Seq<char>) -> Seq<char> {
    s.map_values(
        |c: char|
            if c == ' ' || c == '/' {
                '_'
            } else {
                c
            },
    )
}

fn sanitize(s: &str) -> (r: String)
    ensures
        r@ == sanitized(s@),
{
    let n = s.unicode_len();
    let mut out = String::new();
    let mut i: usize = 0;
    while i < n
        invariant
            0 <= i <= n,
            n == s@.len(),
            out@.len() == i,
            forall|j: int| 0 <= j < i ==> out@[j] == sanitized(s@)[j],
        decreases n - i,
    {
        let c = s.get_char(i);
        let cc = if c == ' ' || c == '/' {
            '_'
        } else {
            c
        };
        push_char(&mut out, cc);
        i = i + 1;
    }
    proof {
        assert(out@ =~= sanitized(s@));
    }
    out
}

/// The default name pattern: `<id>-<title>.<ext>`, sanitized.
pub fn default_name(id: &str, title: &str, ext: &str) -> (r: String)
    ensures
        r@ == sanitized(id@ + "-"@ + title@ + "."@ + ext@),
{
    let mut s = String::new();
    s.append(id);
    s.append("-");
    s.append(title);
    s.append(".");
    s.append(ext);
    proof {
        assert(s@ =~= id@ + "-"@ + title@ + "."@ + ext@);
    }
    sanitize(s.as_str())
}

/// The literal suffix a role-split download carries.
pub open spec fn role_suffix(role: Role) -> Seq<char> {
    match role {
        Role::Both => Seq::empty(),
        Role::AudioOnly => "-aud"@,
        Role::VideoOnly => "-vid"@,
    }
}

/// The display title of an item: `fulltitle` preferred, `title` as the
/// fallback.
pub open spec fn title_of(item: ItemDescription) -> Option<Seq<char>> {
    match item.fulltitle {
        Some(t) => Some(t@),
        None => match item.title {
            Some(t) => Some(t@),
            None => None,
        },
    }
}

/// The ghost value of the optional filename template.
pub open spec fn template_view(template: Option<&String>) -> Option<Seq<char>> {
    match template {
        Some(s) => Some(s@),
        None => None,
    }
}

/// The filename of a download, assuming the title unescapes cleanly: the
/// unescaped title capped at 128 characters enters the template (or the
/// default pattern, which alone is sanitized), and the role suffix is
/// appended last.
pub open spec fn spec_filename(
    item: ItemDescription,
    ext: Seq<char>,
    template: Option<Seq<char>>,
    role: Role,
) -> Seq<char>
    recommends
        item.id is Some,
        title_of(item) is Some,
        unescaped_of(title_of(item)->Some_0) is Some,
{
    let title = truncated(unescaped_of(title_of(item)->Some_0)->Some_0, 128);
    let id = item.id->Some_0@;
    let body = match template {
        Some(tpl) => substituted(tpl, title, id, ext),
        None => sanitized(id + "-"@ + title + "."@ + ext),
    };
    body + role_suffix(role)
}

/// The character of one decimal digit.
pub open spec fn digit_char(d: nat) -> char {
    if d == 0 {
        '0'
    } else if d == 1 {
        '1'
    } else if d == 2 {
        '2'
    } else if d == 3 {
        '3'
    } else if d == 4 {
        '4'
    } else if d == 5 {
        '5'
    } else if d == 6 {
        '6'
    } else if d == 7 {
        '7'
    } else if d == 8 {
        '8'
    } else {
        '9'
    }
}

/// The decimal digits of `n`, most significant first.
pub open spec fn dec_digits(n: nat) -> Seq<char>
    decreases n,
{
    if n < 10 {
        seq![digit_char(n)]
    } else {
        dec_digits(n / 10) + seq![digit_char(n % 10)]
    }
}

/// `n` in decimal, zero-padded to at least three digits.
pub open spec fn padded3(n: nat) -> Seq<char> {
    if n < 10 {
        "00"@ + dec_digits(n)
    } else if n < 100 {
        "0"@ + dec_digits(n)
    } else {
        dec_digits(n)
    }
}

fn digit_char_exec(d: usize) -> (c: char)
    requires
        d < 10,
    ensures
        c == digit_char(d as nat),
{
    if d == 0 {
        '0'
    } else if d == 1 {
        '1'
    } else if d == 2 {
        '2'
    } else if d == 3 {
        '3'
    } else if d == 4 {
        '4'
    } else if d == 5 {
        '5'
    } else if d == 6 {
        '6'
    } else if d == 7 {
        '7'
    } else if d == 8 {
        '8'
    } else {
        '9'
    }
}

fn dec_string(n: usize) -> (r: String)
    ensures
        r@ == dec_digits(n as nat),
    decreases n,
{
    if n < 10 {
        let mut s = String::new();
        push_char(&mut s, digit_char_exec(n));
        proof {
            assert(s@ =~= dec_digits(n as nat));
        }
        s
    } else {
        let mut s = dec_string(n / 10);
        push_char(&mut s, digit_char_exec(n % 10));
        proof {
            assert(s@ =~= dec_digits((n / 10) as nat) + seq![digit_char((n % 10) as nat)]);
        }
        s
    }
}

/// `n` in decimal, zero-padded to at least three digits.
pub fn pad3(n: usize) -> (r: String)
    ensures
        r@ == padded3(n as nat),
{
    let mut s = String::new();
    if n < 10 {
        s.append("00");
    } else if n < 100 {
        s.append("0");
    }
    let d = dec_string(n);
    s.append(d.as_str());
    proof {
        assert(s@ =~= padded3(n as nat));
    }
    s
}

/// Index of the last `'.'` in the text, if any.
pub open spec fn last_dot(s: Seq<char>) -> Option<int>
    decreases s.len(),
{
    if s.len() == 0 {
        None
    } else if s.last() == '.' {
        Some(s.len() - 1)
    } else {
        last_dot(s.drop_last())
    }
}

/// Insert the 1-based playlist sequence suffix `-NNN` (three decimal
/// digits, zero-padded) immediately before the final extension dot of a
/// template path; `None` when the path holds no dot.
pub fn insert_sequence_suffix(tpl: &str, n: usize) -> (r: Option<String>)
    ensures
        (r is Some) == (last_dot(tpl@) is Some),
        r is Some ==> r->Some_0@ == tpl@.take(last_dot(tpl@)->Some_0) + "-"@ + padded3(n as nat)
            + tpl@.skip(last_dot(tpl@)->Some_0),
{
    let len = tpl.unicode_len();
    let mut i: usize = len;
    proof {
        assert(tpl@.take(i as int) =~= tpl@);
    }
    while i > 0
        invariant
            i <= tpl@.len(),
            len == tpl@.len(),
            last_dot(tpl@) == last_dot(tpl@.take(i as int)),
        decreases i,
    {
        i = i - 1;
        proof {
            assert(tpl@.take(i + 1).last() == tpl@[i as int]);
            assert(tpl@.take(i + 1).drop_last() =~= tpl@.take(i as int));
        }
        if tpl.get_char(i) == '.' {
            let mut out = tpl.substring_char(0, i).to_owned();
            out.append("-");
            let p = pad3(n);
            out.append(p.as_str());
            out.append(tpl.substring_char(i, len));
            proof {
                assert(tpl@.subrange(i as int, len as int) =~= tpl@.skip(i as int));
                assert(out@ =~= tpl@.take(i as int) + "-"@ + padded3(n as nat) + tpl@.skip(
                    i as int,
                ));
            }
            return Some(out);
        }
    }
    proof {
        assert(tpl@.take(0) =~= Seq::<char>::empty());
    }
    None
}

/// Law: the role suffix of a split. Whatever template is in use, the
/// audio pass of a split names its file exactly as the combined download
/// would, suffixed `"-aud"`, and the video pass likewise with `"-vid"`.
pub proof fn lemma_split_filenames(
    item: ItemDescription,
    ext: Seq<char>,
    template: Option<Seq<char>>,
)
    ensures
        spec_filename(item, ext, template, Role::AudioOnly) == spec_filename(
            item,
            ext,
            template,
            Role::Both,
        ) + "-aud"@,
        spec_filename(item, ext, template, Role::VideoOnly) == spec_filename(
            item,
            ext,
            template,
            Role::Both,
        ) + "-vid"@,
{
    assert(spec_filename(item, ext, template, Role::AudioOnly) =~= spec_filename(
        item,
        ext,
        template,
        Role::Both,
    ) + "-aud"@);
    assert(spec_filename(item, ext, template, Role::VideoOnly) =~= spec_filename(
        item,
        ext,
        template,
        Role::Both,
    ) + "-vid"@);
}

/// Compose the output filename for one download of an item.
pub fn compose_filename(
    item: &ItemDescription,
    ext: &String,
    template: Option<&String>,
    role: Role,
) -> (r: Result<String, PlanError>)
    ensures
        item.id is None ==> r == Err::<String, PlanError>(PlanError::Schema(SchemaField::Id)),
        item.id is Some && title_of(*item) is None ==> r == Err::<String, PlanError>(
            PlanError::Schema(SchemaField::Title),
        ),
        item.id is Some ==> (title_of(*item) matches Some(t) ==> match unescaped_of(t) {
            None => r == Err::<String, PlanError>(PlanError::UnescapeFailed),
            Some(u) => r matches Ok(name) && name@ == spec_filename(
                *item,
                ext@,
                template_view(template),
                role,
            ),
        }),
{
    let id = match &item.id {
        Some(s) => s,
        None => {
            return Err(PlanError::Schema(SchemaField::Id));
        },
    };
    let raw_title = match &item.fulltitle {
        Some(t) => t,
        None => match &item.title {
            Some(t) => t,
            None => {
                return Err(PlanError::Schema(SchemaField::Title));
            },
        },
    };
    let unescaped = match unescape_text(raw_title.as_str()) {
        Some(u) => u,
        None => {
            return Err(PlanError::UnescapeFailed);
        },
    };
    let title = truncate_chars(unescaped.as_str(), 128);
    let mut name = match template {
        Some(tpl) => apply_template(tpl.as_str(), title.as_str(), id.as_str(), ext.as_str()),
        None => default_name(id.as_str(), title.as_str(), ext.as_str()),
    };
    match role {
        Role::Both => {
            proof {
                assert(name@ + role_suffix(Role::Both) =~= name@);
            }
        },
        Role::AudioOnly => {
            name.append("-aud");
        },
        Role::VideoOnly => {
            name.append("-vid");
        },
    }
    Ok(name)
}

} // verus!
