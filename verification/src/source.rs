//! Source specifications for I/Q input, written as URIs.
//!
//! - `samples/file.cf32`, `file:///abs/path.cf32`, `file://~/rec.cf32`: a CF32
//!   file; `?sample_rate=` (or `rate=`) overrides the 20 MS/s default.
//! - `hackrf://[index]?sample_rate=..&gain=..&lna_gain=..&vga_gain=..&amp=1&bias_tee=1`
//! - `soapy://driver=..?sample_rate=..&channel=..&gain=..`
//!
//! Text without `://` is taken as a file path. The URI itself is split into
//! scheme, host, path and decoded query pairs by the `url` crate.
use crate::text::{
    all_digits, contains_scheme_separator, decimal_text, digits_value, float_text, i32_text,
    is_float_text, parse_i32, parse_u32,
    parse_usize, text_eq, trim_leading_slashes, trim_start_slashes, u32_text, u64_text, usize_text,
};
use vstd::prelude::*;
use vstd::string::StringExecFns;

verus! {

/// A URI split into the parts a source specification reads.
#[derive(Debug, Clone, PartialEq, Eq)]
pub struct UriParts {
    pub scheme: String,
    pub host: Option<String>,
    pub path: String,
    /// Decoded `key=value` pairs of the query, in order.
    pub query: Vec<(String, String)>,
}

/// The parts of a parsed URI as text: scheme, host, path, query pairs.
pub type UriView = (Seq<char>, Option<Seq<char>>, Seq<char>, Seq<(Seq<char>, Seq<char>)>);

/// The query pairs of a URI as text.
pub open spec fn pairs_view(q: Seq<(String, String)>) -> Seq<(Seq<char>, Seq<char>)> {
    q.map_values(|kv: (String, String)| (kv.0@, kv.1@))
}

/// The parts of a URI as text.
pub open spec fn uri_view(p: UriParts) -> UriView {
    (
        p.scheme@,
        match p.host {
            Some(h) => Some(h@),
            None => None,
        },
        p.path@,
        pairs_view(p.query@),
    )
}

/// What `url::Url::parse` makes of `s`: its scheme, host, path and decoded
/// query pairs, or the text of its error.
pub uninterp spec fn url_parse(s: Seq<char>) -> Result<UriView, Seq<char>>;

/// Split a URI with `url::Url::parse`.
///
/// Trusted: the result is taken to be a function of the text alone (named
/// `url_parse`); nothing more is claimed of what the parser accepts.
#[verifier::external_body]
fn parse_uri(s: &str) -> (r: Result<UriParts, String>)
    ensures
        r is Ok ==> url_parse(s@) == Ok::<UriView, Seq<char>>(uri_view(r->Ok_0)),
        r is Err ==> url_parse(s@) == Err::<UriView, Seq<char>>(r->Err_0@),
{
    match url::Url::parse(s) {
        Ok(url) => Ok(
            UriParts {
                scheme: url.scheme().to_string(),
                host: url.host_str().map(|h| h.to_string()),
                path: url.path().to_string(),
                query: url.query_pairs().map(|(k, v)| (k.into_owned(), v.into_owned())).collect(),
            },
        ),
        Err(e) => Err(e.to_string()),
    }
}

/// `s` is `~` alone or starts with `~/` (or, on Windows, `~\`): a path that
/// tilde expansion may rewrite.
pub open spec fn starts_with_home(s: Seq<char>) -> bool {
    s.len() >= 1 && s[0] == '~' && (s.len() == 1 || s[1] == '/' || s[1] == '\\')
}

/// `expanded` is a tilde expansion of `s`: `s` itself, or, when `s` starts
/// with `~` alone, `~/` or `~\`, some home directory followed by the rest of `s`.
pub open spec fn tilde_expansion_of(s: Seq<char>, expanded: Seq<char>) -> bool {
    ||| expanded == s
    ||| starts_with_home(s) && expanded.len() >= s.len() - 1 && expanded.subrange(
        expanded.len() - (s.len() - 1),
        expanded.len() as int,
    ) == s.drop_first()
}

/// Expand a leading `~` with `shellexpand::tilde`.
///
/// Trusted: paths not starting with `~` alone, `~/` or `~\` come back unchanged;
/// others come back unchanged or with the `~` replaced by a home directory,
/// which depends on the environment and is left open.
#[verifier::external_body]
fn expand_tilde(path: &str) -> (expanded: String)
    ensures
        tilde_expansion_of(path@, expanded@),
        !starts_with_home(path@) ==> expanded@ == path@,
{
    shellexpand::tilde(path).to_string()
}

/// Why a source cannot be set up or read.
#[derive(Debug)]
pub enum SourceError {
    /// Invalid URL syntax.
    UrlParse(String),
    /// Unsupported scheme.
    UnsupportedScheme(String),
    /// I/O error reading a file.
    Io(std::io::Error),
    /// CF32 data whose length is not a multiple of 8 bytes.
    InvalidCf32Length(usize),
    /// Device configuration error.
    DeviceConfig(String),
    /// A source kind that this build does not provide.
    FeatureNotAvailable(String),
    /// Parse error.
    ParseError(String),
}

#[verifier::external_type_specification]
#[verifier::external_body]
pub struct ExIoError(std::io::Error);

/// The text of an I/O error, as its `Display` impl writes it (`to_string`).
///
/// Trusted, and nothing is stated of the text: it comes from the operating
/// system's description of the error.
#[verifier::external_body]
fn io_error_text(e: &std::io::Error) -> (t: String) {
    e.to_string()
}

impl SourceError {
    /// A one-line description of the error.
    pub fn to_text(&self) -> (t: String)
        ensures
            match self {
                SourceError::UrlParse(e) => t@ == "Invalid URL: "@ + e@,
                SourceError::UnsupportedScheme(s) => t@ == "Unsupported scheme: "@ + s@,
                SourceError::Io(_) => "I/O error: "@.is_prefix_of(t@),
                SourceError::InvalidCf32Length(len) => t@ == "Invalid CF32 length "@
                    + decimal_text(*len as nat) + ": expected multiple of 8 bytes"@,
                SourceError::DeviceConfig(e) => t@ == "Device config error: "@ + e@,
                SourceError::FeatureNotAvailable(f) => t@ == "Feature not available: "@ + f@
                    + " (compile with --features "@ + f@ + ")"@,
                SourceError::ParseError(e) => t@ == "Parse error: "@ + e@,
            },
    {
        match self {
            SourceError::UrlParse(e) => {
                let mut t = String::from_str("Invalid URL: ");
                t.append(e.as_str());
                t
            },
            SourceError::UnsupportedScheme(s) => {
                let mut t = String::from_str("Unsupported scheme: ");
                t.append(s.as_str());
                t
            },
            SourceError::Io(e) => {
                let mut t = String::from_str("I/O error: ");
                let ghost head = t@;
                t.append(io_error_text(e).as_str());
                assert(head =~= t@.subrange(0, head.len() as int));
                t
            },
            SourceError::InvalidCf32Length(len) => {
                let mut t = String::from_str("Invalid CF32 length ");
                t.append(u64_text(*len as u64).as_str());
                t.append(": expected multiple of 8 bytes");
                t
            },
            SourceError::DeviceConfig(e) => {
                let mut t = String::from_str("Device config error: ");
                t.append(e.as_str());
                t
            },
            SourceError::FeatureNotAvailable(f) => {
                let mut t = String::from_str("Feature not available: ");
                t.append(f.as_str());
                t.append(" (compile with --features ");
                t.append(f.as_str());
                t.append(")");
                t
            },
            SourceError::ParseError(e) => {
                let mut t = String::from_str("Parse error: ");
                t.append(e.as_str());
                t
            },
        }
    }
}

/// The number of CF32 samples (eight bytes each: little-endian `f32` I then
/// Q) in `len` bytes; `len` must be a whole number of samples.
pub fn cf32_sample_count(len: usize) -> (r: Result<usize, SourceError>)
    ensures
        len % 8 == 0 ==> (r matches Ok(n) && n == len / 8),
        len % 8 != 0 ==> (r matches Err(SourceError::InvalidCf32Length(l)) && l == len),
{
    if len % 8 != 0 {
        return Err(SourceError::InvalidCf32Length(len));
    }
    Ok(len / 8)
}

/// A source of I/Q samples.
#[derive(Debug, Clone, PartialEq)]
pub enum Source {
    /// A CF32 file.
    File { path: String, sample_rate: u32 },
    /// A HackRF device.
    HackRf {
        sample_rate: u32,
        device: Option<usize>,
        /// Combined gain in dB, split between LNA and VGA.
        gain: Option<i32>,
        /// LNA gain in dB.
        lna_gain: Option<u32>,
        /// VGA gain in dB.
        vga_gain: Option<u32>,
        /// Enable the amplifier.
        amp_enable: bool,
        /// Enable the antenna bias tee.
        bias_tee: bool,
    },
    /// A SoapySDR device.
    Soapy {
        sample_rate: u32,
        args: String,
        channel: usize,
        /// Receive gain in dB, as decimal floating-point text.
        gain: Option<String>,
    },
}

/// The sample rate used when a source names none.
pub const DEFAULT_SOURCE_SAMPLE_RATE_HZ: u32 = 20_000_000;

/// The value of the first query pair whose key is `k1` or `k2` and whose value
/// `parse` accepts.
pub open spec fn first_value<T>(
    pairs: Seq<(Seq<char>, Seq<char>)>,
    k1: Seq<char>,
    k2: Seq<char>,
    parse: spec_fn(Seq<char>) -> Option<T>,
) -> Option<T>
    decreases pairs.len(),
{
    if pairs.len() == 0 {
        None
    } else if (pairs[0].0 == k1 || pairs[0].0 == k2) && parse(pairs[0].1) is Some {
        parse(pairs[0].1)
    } else {
        first_value(pairs.drop_first(), k1, k2, parse)
    }
}

/// Some query pair has key `k1` or `k2` and value `1`.
pub open spec fn flag_set(pairs: Seq<(Seq<char>, Seq<char>)>, k1: Seq<char>, k2: Seq<char>) -> bool {
    exists|i: int|
        0 <= i < pairs.len() && (#[trigger] pairs[i].0 == k1 || pairs[i].0 == k2) && pairs[i].1
            == seq!['1']
}

/// Text as a floating-point value's text, if it is one.
pub open spec fn float_value_text(s: Seq<char>) -> Option<Seq<char>> {
    if float_text(s) {
        Some(s)
    } else {
        None
    }
}

/// Some(v) or the default.
pub open spec fn or_default<T>(o: Option<T>, d: T) -> T {
    match o {
        Some(v) => v,
        None => d,
    }
}

/// A source specification with a scheme: itself, or `file://` before it.
pub open spec fn with_scheme(s: Seq<char>) -> Seq<char> {
    if crate::text::has_scheme_separator(s) {
        s
    } else {
        "file://"@ + s
    }
}

/// The text of an optional string.
pub open spec fn opt_text(o: Option<String>) -> Option<Seq<char>> {
    match o {
        Some(t) => Some(t@),
        None => None,
    }
}

/// `r` is the source that specification `s` describes.
pub open spec fn source_parsed(s: Seq<char>, r: Result<Source, SourceError>) -> bool {
    match url_parse(with_scheme(s)) {
        Err(e) => r matches Err(SourceError::UrlParse(m)) && m@ == e,
        Ok(parts) => source_from_parts(parts, r),
    }
}

/// `r` is the source that a URI with these parts describes.
pub open spec fn source_from_parts(parts: UriView, r: Result<Source, SourceError>) -> bool {
    let (scheme, host, path, pairs) = parts;
    let rate = or_default(
        first_value(pairs, "sample_rate"@, "rate"@, |v: Seq<char>| si_rate(v)),
        20_000_000u32,
    );
    if scheme == "file"@ {
        let raw = match host {
            Some(h) => h + path,
            None => path,
        };
        r matches Ok(Source::File { path: p, sample_rate }) && sample_rate == rate
            && tilde_expansion_of(raw, p@)
    } else if scheme == "hackrf"@ {
        r matches Ok(
            Source::HackRf {
                sample_rate,
                device,
                gain,
                lna_gain,
                vga_gain,
                amp_enable,
                bias_tee,
            },
        ) && sample_rate == rate && device == (match host {
            Some(h) => usize_text(h),
            None => None,
        }) && gain == first_value(pairs, "gain"@, "tx_gain"@, |v: Seq<char>| i32_text(v))
            && lna_gain == first_value(pairs, "lna_gain"@, "lna"@, |v: Seq<char>| u32_text(v))
            && vga_gain == first_value(pairs, "vga_gain"@, "vga"@, |v: Seq<char>| u32_text(v))
            && amp_enable == flag_set(pairs, "amp"@, "amp_enable"@) && bias_tee == flag_set(
            pairs,
            "bias_tee"@,
            "bias"@,
        )
    } else if scheme == "soapy"@ {
        r matches Ok(Source::Soapy { sample_rate, args, channel, gain }) && sample_rate
            == rate && args@ == trim_leading_slashes(
            match host {
                Some(h) => h + path,
                None => path,
            },
        ) && channel == or_default(
            first_value(pairs, "channel"@, "channel"@, |v: Seq<char>| usize_text(v)),
            0usize,
        ) && opt_text(gain) == first_value(
            pairs,
            "gain"@,
            "rx_gain"@,
            |v: Seq<char>| float_value_text(v),
        )
    } else {
        r matches Err(SourceError::UnsupportedScheme(m)) && m@ == scheme
    }
}

/// The first `u32` value of a query pair keyed `k1` or `k2`.
fn find_u32(pairs: &Vec<(String, String)>, k1: &str, k2: &str) -> (v: Option<u32>)
    ensures
        v == first_value(pairs_view(pairs@), k1@, k2@, |t: Seq<char>| u32_text(t)),
{
    let mut i = pairs.len();
    let mut found: Option<u32> = None;
    while i > 0
        invariant
            i <= pairs@.len(),
            found == first_value(
                pairs_view(pairs@).skip(i as int),
                k1@,
                k2@,
                |t: Seq<char>| u32_text(t),
            ),
        decreases i,
    {
        i -= 1;
        let (k, v) = &pairs[i];
        let ghost rest = pairs_view(pairs@).skip(i as int);
        assert(rest.drop_first() =~= pairs_view(pairs@).skip(i + 1));
        if text_eq(k.as_str(), k1) || text_eq(k.as_str(), k2) {
            match parse_u32(v.as_str()) {
                Some(x) => {
                    found = Some(x);
                },
                None => {},
            }
        }
    }
    assert(pairs_view(pairs@).skip(0) =~= pairs_view(pairs@));
    found
}

/// A sample rate as `desperado::parse_si_value` reads it, if it reads one.
pub open spec fn si_rate(t: Seq<char>) -> Option<u32> {
    match si_value(t) {
        Ok(v) => Some(v),
        Err(_) => None,
    }
}

/// The first sample rate (with an optional SI suffix) of a query pair keyed
/// `k1` or `k2`.
fn find_si_u32(pairs: &Vec<(String, String)>, k1: &str, k2: &str) -> (v: Option<u32>)
    ensures
        v == first_value(pairs_view(pairs@), k1@, k2@, |t: Seq<char>| si_rate(t)),
{
    let mut i = pairs.len();
    let mut found: Option<u32> = None;
    while i > 0
        invariant
            i <= pairs@.len(),
            found == first_value(
                pairs_view(pairs@).skip(i as int),
                k1@,
                k2@,
                |t: Seq<char>| si_rate(t),
            ),
        decreases i,
    {
        i -= 1;
        let (k, v) = &pairs[i];
        let ghost rest = pairs_view(pairs@).skip(i as int);
        assert(rest.drop_first() =~= pairs_view(pairs@).skip(i + 1));
        if text_eq(k.as_str(), k1) || text_eq(k.as_str(), k2) {
            match parse_si_u32(v.as_str()) {
                Ok(x) => {
                    found = Some(x);
                },
                Err(_) => {},
            }
        }
    }
    assert(pairs_view(pairs@).skip(0) =~= pairs_view(pairs@));
    found
}

/// The first `i32` value of a query pair keyed `k1` or `k2`.
fn find_i32(pairs: &Vec<(String, String)>, k1: &str, k2: &str) -> (v: Option<i32>)
    ensures
        v == first_value(pairs_view(pairs@), k1@, k2@, |t: Seq<char>| i32_text(t)),
{
    let mut i = pairs.len();
    let mut found: Option<i32> = None;
    while i > 0
        invariant
            i <= pairs@.len(),
            found == first_value(
                pairs_view(pairs@).skip(i as int),
                k1@,
                k2@,
                |t: Seq<char>| i32_text(t),
            ),
        decreases i,
    {
        i -= 1;
        let (k, v) = &pairs[i];
        let ghost rest = pairs_view(pairs@).skip(i as int);
        assert(rest.drop_first() =~= pairs_view(pairs@).skip(i + 1));
        if text_eq(k.as_str(), k1) || text_eq(k.as_str(), k2) {
            match parse_i32(v.as_str()) {
                Some(x) => {
                    found = Some(x);
                },
                None => {},
            }
        }
    }
    assert(pairs_view(pairs@).skip(0) =~= pairs_view(pairs@));
    found
}

/// The first `usize` value of a query pair keyed `k1` or `k2`.
fn find_usize(pairs: &Vec<(String, String)>, k1: &str, k2: &str) -> (v: Option<usize>)
    ensures
        v == first_value(pairs_view(pairs@), k1@, k2@, |t: Seq<char>| usize_text(t)),
{
    let mut i = pairs.len();
    let mut found: Option<usize> = None;
    while i > 0
        invariant
            i <= pairs@.len(),
            found == first_value(
                pairs_view(pairs@).skip(i as int),
                k1@,
                k2@,
                |t: Seq<char>| usize_text(t),
            ),
        decreases i,
    {
        i -= 1;
        let (k, v) = &pairs[i];
        let ghost rest = pairs_view(pairs@).skip(i as int);
        assert(rest.drop_first() =~= pairs_view(pairs@).skip(i + 1));
        if text_eq(k.as_str(), k1) || text_eq(k.as_str(), k2) {
            match parse_usize(v.as_str()) {
                Some(x) => {
                    found = Some(x);
                },
                None => {},
            }
        }
    }
    assert(pairs_view(pairs@).skip(0) =~= pairs_view(pairs@));
    found
}

/// The first floating-point text value of a query pair keyed `k1` or `k2`.
fn find_float_text(pairs: &Vec<(String, String)>, k1: &str, k2: &str) -> (v: Option<String>)
    ensures
        opt_text(v) == first_value(
            pairs_view(pairs@),
            k1@,
            k2@,
            |t: Seq<char>| float_value_text(t),
        ),
{
    let mut i = pairs.len();
    let mut found: Option<String> = None;
    while i > 0
        invariant
            i <= pairs@.len(),
            opt_text(found) == first_value(
                pairs_view(pairs@).skip(i as int),
                k1@,
                k2@,
                |t: Seq<char>| float_value_text(t),
            ),
        decreases i,
    {
        i -= 1;
        let (k, v) = &pairs[i];
        let ghost rest = pairs_view(pairs@).skip(i as int);
        assert(rest.drop_first() =~= pairs_view(pairs@).skip(i + 1));
        if text_eq(k.as_str(), k1) || text_eq(k.as_str(), k2) {
            if is_float_text(v.as_str()) {
                found = Some(v.clone());
            }
        }
    }
    assert(pairs_view(pairs@).skip(0) =~= pairs_view(pairs@));
    found
}

/// Whether a query pair keyed `k1` or `k2` has value `1`.
fn any_flag(pairs: &Vec<(String, String)>, k1: &str, k2: &str) -> (set: bool)
    ensures
        set == flag_set(pairs_view(pairs@), k1@, k2@),
{
    let one = "1";
    proof {
        reveal_strlit("1");
        assert(one@ =~= seq!['1']);
    }
    let mut i: usize = 0;
    while i < pairs.len()
        invariant
            i <= pairs@.len(),
            one@ == seq!['1'],
            forall|j: int|
                0 <= j < i ==> !((#[trigger] pairs_view(pairs@)[j]).0 == k1@ || pairs_view(
                    pairs@,
                )[j].0 == k2@) || pairs_view(pairs@)[j].1 != seq!['1'],
        decreases pairs@.len() - i,
    {
        let (k, v) = &pairs[i];
        assert(pairs_view(pairs@)[i as int] == (k@, v@));
        if (text_eq(k.as_str(), k1) || text_eq(k.as_str(), k2)) && text_eq(v.as_str(), one) {
            let ghost pv = pairs_view(pairs@);
            assert((pv[i as int].0 == k1@ || pv[i as int].0 == k2@) && pv[i as int].1 == seq![
                '1',
            ]);
            return true;
        }
        i += 1;
    }
    false
}

impl Source {
    /// Parse a source specification (see the module documentation).
    pub fn from_spec(s: &str) -> (r: Result<Self, SourceError>)
        ensures
            source_parsed(s@, r),
    {
        let uri = if !contains_scheme_separator(s) {
            let mut u = String::from_str("file://");
            u.append(s);
            u
        } else {
            String::from_str(s)
        };
        proof {
            reveal_strlit("file://");
        }
        match parse_uri(uri.as_str()) {
            Ok(url) => Self::from_uri(&url),
            Err(e) => Err(SourceError::UrlParse(e)),
        }
    }

    /// The source that a URI with these parts describes.
    pub fn from_uri(url: &UriParts) -> (r: Result<Self, SourceError>)
        ensures
            source_from_parts(uri_view(*url), r),
    {
        let sample_rate = match find_si_u32(&url.query, "sample_rate", "rate") {
            Some(r) => r,
            None => DEFAULT_SOURCE_SAMPLE_RATE_HZ,
        };
        if text_eq(url.scheme.as_str(), "file") {
            let raw = match &url.host {
                Some(host) => {
                    let mut p = host.clone();
                    p.append(url.path.as_str());
                    p
                },
                None => url.path.clone(),
            };
            let path = expand_tilde(raw.as_str());
            Ok(Source::File { path, sample_rate })
        } else if text_eq(url.scheme.as_str(), "hackrf") {
            let device = match &url.host {
                Some(h) => if h.as_str().unicode_len() == 0 {
                    proof {
                        assert(crate::text::unsigned_text(h@) is None);
                    }
                    None
                } else {
                    parse_usize(h.as_str())
                },
                None => None,
            };
            let gain = find_i32(&url.query, "gain", "tx_gain");
            let lna_gain = find_u32(&url.query, "lna_gain", "lna");
            let vga_gain = find_u32(&url.query, "vga_gain", "vga");
            let amp_enable = any_flag(&url.query, "amp", "amp_enable");
            let bias_tee = any_flag(&url.query, "bias_tee", "bias");
            Ok(
                Source::HackRf {
                    sample_rate,
                    device,
                    gain,
                    lna_gain,
                    vga_gain,
                    amp_enable,
                    bias_tee,
                },
            )
        } else if text_eq(url.scheme.as_str(), "soapy") {
            let channel = match find_usize(&url.query, "channel", "channel") {
                Some(c) => c,
                None => 0,
            };
            let gain = find_float_text(&url.query, "gain", "rx_gain");
            let mut device_args = match &url.host {
                Some(host) => host.clone(),
                None => String::new(),
            };
            device_args.append(url.path.as_str());
            let args = trim_start_slashes(device_args.as_str());
            Ok(Source::Soapy { sample_rate, args, channel, gain })
        } else {
            Err(SourceError::UnsupportedScheme(url.scheme.clone()))
        }
    }

    /// Parse a file path or source specification (a path without `://` is
    /// taken as a file). The sample rate argument is not used.
    pub fn from_path(path: &str, _sample_rate: u32) -> (r: Result<Self, SourceError>)
        ensures
            source_parsed(path@, r),
    {
        Self::from_spec(path)
    }

    /// The source's sample rate.
    pub fn sample_rate(&self) -> (rate: u32)
        ensures
            rate == (match self {
                Source::File { sample_rate, .. } => *sample_rate,
                Source::HackRf { sample_rate, .. } => *sample_rate,
                Source::Soapy { sample_rate, .. } => *sample_rate,
            }),
    {
        match self {
            Source::File { sample_rate, .. } => *sample_rate,
            Source::HackRf { sample_rate, .. } => *sample_rate,
            Source::Soapy { sample_rate, .. } => *sample_rate,
        }
    }

    /// Whether this source is a continuous SDR stream rather than a finite file.
    pub fn is_continuous(&self) -> (c: bool)
        ensures
            c == !(self is File),
    {
        match self {
            Source::File { .. } => false,
            Source::HackRf { .. } => true,
            Source::Soapy { .. } => true,
        }
    }
}

/// How a HackRF's receive gain is set.
#[derive(Debug, Clone, Copy, PartialEq, Eq)]
pub enum HackRfGain {
    /// Automatic gain.
    Auto,
    /// A combined gain in dB that the driver splits between LNA and VGA.
    Manual(i32),
    /// The LNA and VGA gains in dB that were given; the driver keeps its
    /// default for one that was not.
    Elements { lna: Option<u32>, vga: Option<u32> },
}

/// The gain setting of a HackRF source: LNA and VGA together come first, then
/// the combined gain, then whichever of LNA and VGA was given, else automatic.
pub open spec fn hackrf_gain_spec(gain: Option<i32>, lna: Option<u32>, vga: Option<u32>) -> HackRfGain {
    if lna is Some && vga is Some {
        HackRfGain::Elements { lna, vga }
    } else if gain is Some {
        HackRfGain::Manual(gain->0)
    } else if lna is Some || vga is Some {
        HackRfGain::Elements { lna, vga }
    } else {
        HackRfGain::Auto
    }
}

/// The gain setting for a HackRF source with these gain parameters.
pub fn hackrf_gain(gain: Option<i32>, lna_gain: Option<u32>, vga_gain: Option<u32>) -> (g:
    HackRfGain)
    ensures
        g == hackrf_gain_spec(gain, lna_gain, vga_gain),
{
    match (lna_gain, vga_gain, gain) {
        (Some(_), Some(_), _) => HackRfGain::Elements { lna: lna_gain, vga: vga_gain },
        (_, _, Some(g)) => HackRfGain::Manual(g),
        (None, None, None) => HackRfGain::Auto,
        _ => HackRfGain::Elements { lna: lna_gain, vga: vga_gain },
    }
}

/// The factor that an SI suffix stands for: `k`/`K` a thousand, `M` a
/// million, `G` a billion; 0 for any other character.
pub open spec fn si_multiplier(c: char) -> nat {
    if c == 'G' {
        1_000_000_000
    } else if c == 'M' {
        1_000_000
    } else if c == 'k' || c == 'K' {
        1_000
    } else {
        0
    }
}

/// The value of decimal digits followed by an SI suffix, if `s` is that.
pub open spec fn si_suffixed_value(s: Seq<char>) -> Option<nat> {
    if s.len() >= 2 && si_multiplier(s.last()) > 0 && all_digits(s.drop_last()) {
        Some(digits_value(s.drop_last()) * si_multiplier(s.last()))
    } else {
        None
    }
}

/// What `desperado::parse_si_value::<u32>` makes of `s` (a number with an
/// optional `k`, `K`, `M` or `G` suffix): the value, or the text of its error.
pub uninterp spec fn si_value(s: Seq<char>) -> Result<u32, Seq<char>>;

/// Parse a sample rate with an optional SI suffix, with
/// `desperado::parse_si_value`.
///
/// Trusted: the result is a function of the text (named `si_value`). For
/// plain decimal digits it is the number when it fits in `u32`, else an error;
/// for decimal digits followed by `k`, `K`, `M` or `G` it is the number times
/// a thousand, a million or a billion when that fits in `u32`, else an error
/// (the digits' value is then below 2^53, so the library's floating-point
/// product is exact). Other text is left to the name.
#[verifier::external_body]
fn parse_si_u32(s: &str) -> (r: Result<u32, String>)
    ensures
        r is Ok ==> si_value(s@) == Ok::<u32, Seq<char>>(r->Ok_0),
        r is Err ==> si_value(s@) == Err::<u32, Seq<char>>(r->Err_0@),
        all_digits(s@) ==> (r is Ok <==> u32_text(s@) is Some),
        all_digits(s@) && r is Ok ==> u32_text(s@) == Some(r->Ok_0),
        si_suffixed_value(s@) matches Some(v) ==> (r is Ok <==> v <= u32::MAX),
        si_suffixed_value(s@) matches Some(v) ==> (r is Ok ==> r->Ok_0 == v),
{
    desperado::parse_si_value::<u32>(s).map_err(|e| e.to_string())
}

/// The sample rate to use for `source`: `rate_override` parsed with SI
/// suffixes when given, else the source's own rate.
pub fn sample_rate_for(rate_override: Option<&str>, source: &Source) -> (r: Result<u32, String>)
    ensures
        rate_override is None ==> r == Ok::<u32, String>(
            match source {
                Source::File { sample_rate, .. } => *sample_rate,
                Source::HackRf { sample_rate, .. } => *sample_rate,
                Source::Soapy { sample_rate, .. } => *sample_rate,
            },
        ),
        rate_override matches Some(text) ==> match si_value(text@) {
            Ok(v) => r == Ok::<u32, String>(v),
            Err(e) => r is Err && r->Err_0@ == "Invalid sample rate: "@ + e,
        },
        rate_override matches Some(text) ==> (all_digits(text@) ==> (r is Ok <==> u32_text(text@)
            is Some) && (r is Ok ==> u32_text(text@) == Some(r->Ok_0))),
        rate_override matches Some(text) ==> (si_suffixed_value(text@) matches Some(v) ==> (r is Ok
            <==> v <= u32::MAX) && (r is Ok ==> r->Ok_0 == v)),
{
    match rate_override {
        Some(text) => match parse_si_u32(text) {
            Ok(v) => Ok(v),
            Err(e) => {
                let mut message = String::from_str("Invalid sample rate: ");
                message.append(e.as_str());
                Err(message)
            },
        },
        None => Ok(source.sample_rate()),
    }
}

impl core::str::FromStr for Source {
    type Err = SourceError;

    fn from_str(s: &str) -> (r: Result<Self, Self::Err>)
        ensures
            source_parsed(s@, r),
    {
        Self::from_spec(s)
    }
}

} // verus!
