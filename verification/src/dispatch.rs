//! Downloader dispatch: route a chosen format to one of the three
//! external downloader tools and build the exact argument vector for it,
//! translating header maps into each tool's header syntax.

use vstd::prelude::*;
use crate::model::HttpHeader;
use crate::text::{has_substring, starts_with, str_contains, str_starts_with};

verus! {

/// Which external downloader tool to invoke.
#[derive(Clone, Copy, PartialEq, Eq, Structural, Debug)]
pub enum Downloader {
    /// The segmented adaptive-stream grabber, for `"m3u8"` protocols.
    AdaptiveGrabber,
    /// The adaptive HTTP-streaming client, for DASH-like containers.
    StreamClient,
    /// The generic segmented downloader, for everything else.
    Segmented,
}

impl Downloader {
    /// What `command_name` returns, for use in contracts.
    pub open spec fn spec_command_name(&self) -> Seq<char> {
        match self {
            Downloader::AdaptiveGrabber => "salgrab"@,
            Downloader::StreamClient => "streamlink"@,
            Downloader::Segmented => "saldl"@,
        }
    }

    /// The name of the external command to run.
    pub fn command_name(&self) -> (r: &'static str)
        ensures
            r@ == self.spec_command_name(),
    {
        match self {
            Downloader::AdaptiveGrabber => "salgrab",
            Downloader::StreamClient => "streamlink",
            Downloader::Segmented => "saldl",
        }
    }
}

/// An adaptive-stream protocol value: present and `"m3u8"`-prefixed.
pub open spec fn is_m3u8_protocol(p: Option<Seq<char>>) -> bool {
    p matches Some(s) && starts_with(s, "m3u8"@)
}

/// A DASH-like container value: present and containing `"dash"`.
pub open spec fn is_dash_container(c: Option<Seq<char>>) -> bool {
    c matches Some(s) && has_substring(s, "dash"@)
}

/// Protocol routing: an adaptive-stream protocol goes to the grabber; a
/// DASH-like container (not already routed) goes to the streaming client;
/// everything else goes to the generic segmented downloader.
pub open spec fn spec_route(protocol: Option<Seq<char>>, container: Option<Seq<char>>) -> Downloader {
    if is_m3u8_protocol(protocol) {
        Downloader::AdaptiveGrabber
    } else if is_dash_container(container) {
        Downloader::StreamClient
    } else {
        Downloader::Segmented
    }
}

/// A quote character that the metadata serialization may put around a
/// header value.
pub open spec fn is_quote(c: char) -> bool {
    c == '"' || c == '\''
}

/// The header value with the serialization quotes removed: one leading
/// quote character is dropped, and only then one trailing quote
/// character; a value with no leading quote is kept whole.
pub open spec fn stripped(s: Seq<char>) -> Seq<char> {
    if s.len() > 0 && is_quote(s[0]) {
        let rest = s.skip(1);
        if rest.len() > 0 && is_quote(rest.last()) {
            rest.drop_last()
        } else {
            rest
        }
    } else {
        s
    }
}

/// Strip the serialization quotes around a header value.
pub fn strip_quotes(s: &str) -> (r: String)
    ensures
        r@ == stripped(s@),
{
    let len = s.unicode_len();
    if len == 0 {
        return s.to_owned();
    }
    let c0 = s.get_char(0);
    if c0 == '"' || c0 == '\'' {
        proof {
            assert(s@.skip(1).len() == len - 1);
        }
        if len >= 2 {
            proof {
                assert(s@.skip(1).last() == s@[len - 1]);
            }
            let cl = s.get_char(len - 1);
            if cl == '"' || cl == '\'' {
                let r = s.substring_char(1, len - 1).to_owned();
                proof {
                    assert(r@ =~= stripped(s@));
                }
                r
            } else {
                let r = s.substring_char(1, len).to_owned();
                proof {
                    assert(r@ =~= stripped(s@));
                }
                r
            }
        } else {
            let r = s.substring_char(1, 1).to_owned();
            proof {
                assert(r@ =~= stripped(s@));
            }
            r
        }
    } else {
        s.to_owned()
    }
}

/// One header in the colon form: `name: value`, quotes stripped.
pub open spec fn header_colon(h: HttpHeader) -> Seq<char> {
    h.name@ + ": "@ + stripped(h.value@)
}

/// One header in the equals form: `name=value`, quotes stripped.
pub open spec fn header_eq(h: HttpHeader) -> Seq<char> {
    h.name@ + "="@ + stripped(h.value@)
}

/// The flag/value argument pairs of a header list: for each header in
/// order, the flag and then the translated header.
pub open spec fn header_args(hs: Seq<HttpHeader>, flag: Seq<char>, eq_form: bool) -> Seq<Seq<char>>
    decreases hs.len(),
{
    if hs.len() == 0 {
        Seq::empty()
    } else {
        header_args(hs.drop_last(), flag, eq_form) + seq![
            flag,
            if eq_form {
                header_eq(hs.last())
            } else {
                header_colon(hs.last())
            },
        ]
    }
}

/// The character sequences of a vector of strings.
pub open spec fn strs(v: Seq<String>) -> Seq<Seq<char>> {
    v.map_values(|s: String| s@)
}

fn push_header_args(args: &mut Vec<String>, hs: &Vec<HttpHeader>, flag: &str, eq_form: bool)
    ensures
        strs(final(args)@) == strs(old(args)@) + header_args(hs@, flag@, eq_form),
{
    let ghost base = strs(old(args)@);
    let mut k: usize = 0;
    proof {
        assert(header_args(hs@.take(0), flag@, eq_form) =~= Seq::<Seq<char>>::empty());
        assert(strs(args@) =~= base + header_args(hs@.take(0), flag@, eq_form));
    }
    while k < hs.len()
        invariant
            0 <= k <= hs@.len(),
            strs(args@) == base + header_args(hs@.take(k as int), flag@, eq_form),
        decreases hs@.len() - k,
    {
        let h = &hs[k];
        let sv = strip_quotes(h.value.as_str());
        let mut hv = h.name.clone();
        if eq_form {
            hv.append("=");
        } else {
            hv.append(": ");
        }
        hv.append(sv.as_str());
        let ghost before = args@;
        let ghost hdr = if eq_form {
            header_eq(hs@[k as int])
        } else {
            header_colon(hs@[k as int])
        };
        proof {
            assert(hv@ == hdr);
        }
        args.push(flag.to_owned());
        args.push(hv);
        proof {
            assert(hs@.take(k + 1).last() == hs@[k as int]);
            assert(hs@.take(k + 1).drop_last() =~= hs@.take(k as int));
            assert(header_args(hs@.take(k + 1), flag@, eq_form) == header_args(
                hs@.take(k as int),
                flag@,
                eq_form,
            ) + seq![flag@, hdr]);
            assert(strs(args@) =~= strs(before) + seq![flag@, hdr]);
            assert(strs(before) + seq![flag@, hdr] =~= base + header_args(
                hs@.take(k + 1),
                flag@,
                eq_form,
            ));
        }
        k = k + 1;
    }
    proof {
        assert(hs@.take(k as int) =~= hs@);
    }
}

/// The argument vector for the adaptive-stream grabber: the headers in
/// `-H name: value` form, the single-segment-per-chunk constraint, then
/// the source URL and the output filename.
pub open spec fn grabber_args(hs: Seq<HttpHeader>, url: Seq<char>, fname: Seq<char>) -> Seq<
    Seq<char>,
> {
    header_args(hs, "-H"@, false) + seq!["--sub-seg-max-count=1"@, "-p"@, url, "-o"@, fname]
}

/// The argument vector for the adaptive HTTP-streaming client: a bounded
/// parallel-segment-fetch count and a fixed ring-buffer budget, the
/// headers in `--http-header name=value` form, the source URL, the best
/// internal quality, and the output filename.
pub open spec fn stream_client_args(hs: Seq<HttpHeader>, url: Seq<char>, fname: Seq<char>) -> Seq<
    Seq<char>,
> {
    seq!["--stream-segment-threads=2"@, "--ringbuffer-size=100M"@] + header_args(
        hs,
        "--http-header"@,
        true,
    ) + seq![url, "best"@, "-o"@, fname]
}

/// The argument vector for the generic segmented downloader: the
/// no-timestamp/resume/multi-connection flags, the source URL, the output
/// filename, then the headers in `-H name: value` form.
pub open spec fn segmented_args(hs: Seq<HttpHeader>, url: Seq<char>, fname: Seq<char>) -> Seq<
    Seq<char>,
> {
    seq!["-nTrm"@, "-a2"@, url, "-o"@, fname] + header_args(hs, "-H"@, false)
}

/// The argument vector each tool is invoked with.
pub open spec fn spec_invocation_args(
    tool: Downloader,
    hs: Seq<HttpHeader>,
    url: Seq<char>,
    fname: Seq<char>,
) -> Seq<Seq<char>> {
    match tool {
        Downloader::AdaptiveGrabber => grabber_args(hs, url, fname),
        Downloader::StreamClient => stream_client_args(hs, url, fname),
        Downloader::Segmented => segmented_args(hs, url, fname),
    }
}

/// The headers a format contributes: none at all when the field is
/// absent.
pub open spec fn headers_view(headers: Option<&Vec<HttpHeader>>) -> Seq<HttpHeader> {
    match headers {
        Some(v) => v@,
        None => Seq::empty(),
    }
}

/// The ghost value of an optional string field.
pub open spec fn opt_string_view(o: Option<&String>) -> Option<Seq<char>> {
    match o {
        Some(s) => Some(s@),
        None => None,
    }
}

/// One downloader invocation: the tool to run and its arguments, in
/// order.
pub struct Invocation {
    pub tool: Downloader,
    pub args: Vec<String>,
}

/// Route by protocol and container.
pub fn route(protocol: Option<&String>, container: Option<&String>) -> (r: Downloader)
    ensures
        r == spec_route(opt_string_view(protocol), opt_string_view(container)),
{
    let m3u8 = match protocol {
        Some(p) => str_starts_with(p.as_str(), "m3u8"),
        None => false,
    };
    if m3u8 {
        Downloader::AdaptiveGrabber
    } else {
        let dash = match container {
            Some(c) => str_contains(c.as_str(), "dash"),
            None => false,
        };
        if dash {
            Downloader::StreamClient
        } else {
            Downloader::Segmented
        }
    }
}

/// Build the downloader invocation for one chosen format: pick the tool
/// by protocol and container, and lay out its exact argument vector.
pub fn build_invocation(
    protocol: Option<&String>,
    container: Option<&String>,
    headers: Option<&Vec<HttpHeader>>,
    url: &String,
    fname: String,
) -> (r: Invocation)
    ensures
        r.tool == spec_route(opt_string_view(protocol), opt_string_view(container)),
        strs(r.args@) == spec_invocation_args(r.tool, headers_view(headers), url@, fname@),
{
    let tool = route(protocol, container);
    let mut args: Vec<String> = Vec::new();
    match tool {
        Downloader::AdaptiveGrabber => {
            if let Some(hs) = headers {
                push_header_args(&mut args, hs, "-H", false);
            }
            args.push("--sub-seg-max-count=1".to_owned());
            args.push("-p".to_owned());
            args.push(url.clone());
            args.push("-o".to_owned());
            args.push(fname);
            proof {
                assert(strs(args@) =~= grabber_args(headers_view(headers), url@, fname@));
            }
        },
        Downloader::StreamClient => {
            args.push("--stream-segment-threads=2".to_owned());
            args.push("--ringbuffer-size=100M".to_owned());
            proof {
                assert(strs(args@) =~= seq![
                    "--stream-segment-threads=2"@,
                    "--ringbuffer-size=100M"@,
                ]);
            }
            if let Some(hs) = headers {
                push_header_args(&mut args, hs, "--http-header", true);
            }
            proof {
                assert(strs(args@) =~= seq![
                    "--stream-segment-threads=2"@,
                    "--ringbuffer-size=100M"@,
                ] + header_args(headers_view(headers), "--http-header"@, true));
            }
            args.push(url.clone());
            args.push("best".to_owned());
            args.push("-o".to_owned());
            args.push(fname);
            proof {
                assert(strs(args@) =~= stream_client_args(headers_view(headers), url@, fname@));
            }
        },
        Downloader::Segmented => {
            args.push("-nTrm".to_owned());
            args.push("-a2".to_owned());
            args.push(url.clone());
            args.push("-o".to_owned());
            args.push(fname);
            if let Some(hs) = headers {
                push_header_args(&mut args, hs, "-H", false);
            }
            proof {
                assert(strs(args@) =~= segmented_args(headers_view(headers), url@, fname@));
            }
        },
    }
    Invocation { tool, args }
}

} // verus!
