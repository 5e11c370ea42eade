use rs1030::source::{
    cf32_sample_count, hackrf_gain, sample_rate_for, HackRfGain, Source, SourceError, UriParts,
};
use rs1030::text::{is_float_text, parse_i32, parse_u32, parse_usize, text_eq};

#[test]
fn parse_file_uri_absolute() {
    let source = "file:///tmp/test.cf32".parse::<Source>();
    assert!(source.is_ok());
    if let Ok(Source::File { path, sample_rate }) = source {
        assert_eq!(path, "/tmp/test.cf32");
        assert_eq!(sample_rate, 20_000_000);
    }
}

#[test]
fn parse_file_uri_with_sample_rate() {
    let source = "file:///tmp/test.cf32?sample_rate=8000000".parse::<Source>();
    assert!(source.is_ok());
    if let Ok(Source::File { sample_rate, .. }) = source {
        assert_eq!(sample_rate, 8_000_000);
    }
}

#[test]
fn parse_hackrf_uri() {
    let source = "hackrf://?sample_rate=8000000".parse::<Source>();
    assert!(source.is_ok());
}

#[test]
fn parse_hackrf_uri_with_gain() {
    let source = "hackrf://?sample_rate=8000000&gain=20&amp=1".parse::<Source>();
    assert!(source.is_ok());
    if let Ok(Source::HackRf {
        gain, amp_enable, ..
    }) = source
    {
        assert_eq!(gain, Some(20));
        assert!(amp_enable);
    }
}

#[test]
fn parse_soapy_uri() {
    let source = "soapy://driver=rtlsdr?sample_rate=8000000".parse::<Source>();
    assert!(source.is_ok());
}

#[test]
fn parse_hackrf_uri_with_separate_gains() {
    let source = "hackrf://?lna_gain=30&vga_gain=40".parse::<Source>();
    assert!(source.is_ok());
    if let Ok(Source::HackRf {
        lna_gain, vga_gain, ..
    }) = source
    {
        assert_eq!(lna_gain, Some(30));
        assert_eq!(vga_gain, Some(40));
    }
}

#[test]
fn parse_soapy_uri_with_gain() {
    let source = "soapy://driver=rtlsdr?sample_rate=8000000&gain=30.5".parse::<Source>();
    assert!(source.is_ok());
    if let Ok(Source::Soapy { gain, .. }) = source {
        assert_eq!(gain.map(|g| g.parse::<f64>().unwrap()), Some(30.5));
    }
}

// ---------------------------------------------------------------------------
// Further cases
// ---------------------------------------------------------------------------

#[test]
fn plain_path_is_a_file() {
    match Source::from_spec("samples/file.cf32?rate=8000000").unwrap() {
        Source::File { path, sample_rate } => {
            assert_eq!(path, "samples/file.cf32");
            assert_eq!(sample_rate, 8_000_000);
        }
        other => panic!("unexpected {other:?}"),
    }
    assert_eq!(Source::from_spec("a.cf32").unwrap().sample_rate(), 20_000_000);
    assert!(!Source::from_spec("a.cf32").unwrap().is_continuous());
    assert!(Source::from_path("hackrf://", 8_000_000).unwrap().is_continuous());
}

#[test]
fn first_parsable_value_wins() {
    let s = Source::from_spec("hackrf://2?rate=abc&sample_rate=12000000&gain=-5&gain=7&lna=99999999999&lna=3&bias=1").unwrap();
    assert_eq!(
        s,
        Source::HackRf {
            sample_rate: 12_000_000,
            device: Some(2),
            gain: Some(-5),
            lna_gain: Some(3),
            vga_gain: None,
            amp_enable: false,
            bias_tee: true,
        }
    );
}

#[test]
fn soapy_defaults() {
    let s = Source::from_spec("soapy://driver=rtlsdr?gain=loud&rx_gain=1e1&channel=2").unwrap();
    match s {
        Source::Soapy { sample_rate, args, channel, gain } => {
            assert_eq!(sample_rate, 20_000_000);
            assert_eq!(args, "driver=rtlsdr");
            assert_eq!(channel, 2);
            assert_eq!(gain.as_deref(), Some("1e1"));
        }
        other => panic!("unexpected {other:?}"),
    }
}

#[test]
fn unsupported_scheme_and_bad_url() {
    assert!(matches!(
        Source::from_spec("ftp://host/x"),
        Err(SourceError::UnsupportedScheme(s)) if s == "ftp"
    ));
    assert!(matches!(
        Source::from_spec("http://[::1"),
        Err(SourceError::UrlParse(_))
    ));
}

#[test]
fn integer_text_follows_std_rules() {
    for s in ["0", "+7", "4294967295", "007", "12a", "", "+", "-1", " 1", "4294967296"] {
        assert_eq!(parse_u32(s), s.parse::<u32>().ok(), "{s:?}");
        assert_eq!(parse_usize(s), s.parse::<usize>().ok(), "{s:?}");
    }
    for s in ["-2147483648", "2147483647", "2147483648", "-2147483649", "-", "-+1", "+-1", "-0"] {
        assert_eq!(parse_i32(s), s.parse::<i32>().ok(), "{s:?}");
    }
}

#[test]
fn float_text_follows_std_rules() {
    for s in [
        "30.5", "1e1", "1E-3", ".5", "5.", ".", "e5", "1e", "+inf", "-Infinity", "NaN", "nan1",
        "1.2.3", "", "+", "1_0", "12", "-0.0e+7", "infinit", "0x10",
    ] {
        assert_eq!(is_float_text(s), s.parse::<f64>().is_ok(), "{s:?}");
    }
}

#[test]
fn text_equality() {
    assert!(text_eq("abc", "abc"));
    assert!(!text_eq("abc", "abd"));
    assert!(!text_eq("ab", "abc"));
}

#[test]
fn hackrf_gain_priority() {
    assert_eq!(hackrf_gain(None, None, None), HackRfGain::Auto);
    assert_eq!(hackrf_gain(Some(50), None, None), HackRfGain::Manual(50));
    assert_eq!(
        hackrf_gain(Some(50), Some(30), Some(35)),
        HackRfGain::Elements { lna: Some(30), vga: Some(35) }
    );
    assert_eq!(hackrf_gain(Some(50), Some(30), None), HackRfGain::Manual(50));
    assert_eq!(
        hackrf_gain(None, Some(40), None),
        HackRfGain::Elements { lna: Some(40), vga: None }
    );
    assert_eq!(
        hackrf_gain(None, None, Some(62)),
        HackRfGain::Elements { lna: None, vga: Some(62) }
    );
}

#[test]
fn hackrf_gain_from_uri() {
    let source: Source = "hackrf://?lna_gain=35&vga_gain=27&amp=1&bias_tee=1".parse().unwrap();
    if let Source::HackRf { gain, lna_gain, vga_gain, amp_enable, bias_tee, .. } = source {
        assert!(amp_enable && bias_tee);
        assert_eq!(
            hackrf_gain(gain, lna_gain, vga_gain),
            HackRfGain::Elements { lna: Some(35), vga: Some(27) }
        );
    } else {
        panic!("not a HackRF source");
    }
}

#[test]
fn sample_rate_override() {
    let source: Source = "file:///tmp/x.cf32?sample_rate=8000000".parse().unwrap();
    assert_eq!(sample_rate_for(None, &source), Ok(8_000_000));
    assert_eq!(sample_rate_for(Some("20M"), &source), Ok(20_000_000));
    assert_eq!(sample_rate_for(Some("12000000"), &source), Ok(12_000_000));
    let err = sample_rate_for(Some("fast"), &source).unwrap_err();
    assert!(err.starts_with("Invalid sample rate: "));
}

fn parts(scheme: &str, host: Option<&str>, path: &str, query: &[(&str, &str)]) -> UriParts {
    UriParts {
        scheme: scheme.to_string(),
        host: host.map(|h| h.to_string()),
        path: path.to_string(),
        query: query.iter().map(|(k, v)| (k.to_string(), v.to_string())).collect(),
    }
}

#[test]
fn source_from_uri_parts() {
    let hackrf = parts(
        "hackrf",
        Some("1"),
        "",
        &[("rate", "x"), ("rate", "8000000"), ("lna", "30"), ("gain", "-5"), ("bias", "1")],
    );
    assert_eq!(
        Source::from_uri(&hackrf).unwrap(),
        Source::HackRf {
            sample_rate: 8_000_000,
            device: Some(1),
            gain: Some(-5),
            lna_gain: Some(30),
            vga_gain: None,
            amp_enable: false,
            bias_tee: true,
        }
    );
    let soapy = parts("soapy", None, "//driver=rtlsdr", &[("channel", "2"), ("rx_gain", "1e1")]);
    assert_eq!(
        Source::from_uri(&soapy).unwrap(),
        Source::Soapy {
            sample_rate: 20_000_000,
            args: "driver=rtlsdr".to_string(),
            channel: 2,
            gain: Some("1e1".to_string()),
        }
    );
    let file = parts("file", Some("data"), "/a.cf32", &[("sample_rate", "12000000")]);
    assert_eq!(
        Source::from_uri(&file).unwrap(),
        Source::File { path: "data/a.cf32".to_string(), sample_rate: 12_000_000 }
    );
    let other = parts("http", Some("example.org"), "/", &[]);
    assert!(matches!(
        Source::from_uri(&other),
        Err(SourceError::UnsupportedScheme(s)) if s == "http"
    ));
}

#[test]
fn query_sample_rates_take_si_suffixes() {
    let s = Source::from_spec("hackrf://?sample_rate=8M").unwrap();
    assert!(matches!(s, Source::HackRf { sample_rate: 8_000_000, .. }));
    let s = Source::from_spec("soapy://driver=rtlsdr?sample_rate=2.4M&gain=20&channel=0").unwrap();
    assert_eq!(
        s,
        Source::Soapy {
            sample_rate: 2_400_000,
            args: "driver=rtlsdr".to_string(),
            channel: 0,
            gain: Some("20".to_string()),
        }
    );
    let s = Source::from_spec("soapy://driver=rtlsdr?sample_rate=8000000").unwrap();
    assert_eq!(
        s,
        Source::Soapy {
            sample_rate: 8_000_000,
            args: "driver=rtlsdr".to_string(),
            channel: 0,
            gain: None,
        }
    );
    let s = Source::from_spec("file:///tmp/a.cf32?rate=5G&rate=2400k").unwrap();
    assert!(matches!(s, Source::File { sample_rate: 2_400_000, .. }));
    let s = Source::from_spec("hackrf://?rate=fast").unwrap();
    assert!(matches!(s, Source::HackRf { sample_rate: 20_000_000, .. }));
}

#[test]
fn cf32_lengths() {
    assert!(matches!(cf32_sample_count(0), Ok(0)));
    assert!(matches!(cf32_sample_count(80), Ok(10)));
    assert!(matches!(cf32_sample_count(81), Err(SourceError::InvalidCf32Length(81))));
}
