use nescookie::error::{Error, ParseError};
use nescookie::parse;

const CONTENT: &str = "# Netscape HTTP Cookie File\n\
.pixiv.net\tTRUE\t/\tTRUE\t1784339332\tp_ab_id\t7\n\
.pixiv.net\tTRUE\t/\tTRUE\t1784339332\tp_ab_id_2\t5\n\
.pixiv.net\tTRUE\t/\tFALSE\t1658198930\tfirst_visit_datetime_pc\t2021-07-19+10%3A48%3A50\n\
.pixiv.net\tTRUE\t/\tFALSE\t1658198930\tyuid_b\tNlVKOGc\n\
#HttpOnly_.pixiv.net\tTRUE\t/\tTRUE\t1626662932\tPHPSESSID\tabcdef123456\n\
.pixiv.net\tTRUE\t/\tFALSE\t0\tprivacy_policy_agreement\t5\n";

#[test]
fn cookie() {
    let jar = parse(CONTENT).unwrap();
    assert_eq!(jar.len(), 6);
    assert_eq!(
        jar.get("first_visit_datetime_pc").map(|c| c.value.as_str()),
        Some("2021-07-19+10%3A48%3A50")
    );
    assert!(jar.get("p_ab_id").map(|c| c.secure).unwrap());
    assert_eq!(
        jar.get("PHPSESSID").map(|c| c.expiration.unwrap()),
        Some(1626662932)
    );
    assert_eq!(jar.get("yuid_b").map(|c| c.path.as_str()), Some("/"))
}

#[test]
fn single_record() {
    let jar = parse(".pixiv.net\tTRUE\t/\tTRUE\t1784339332\tp_ab_id\t7\n").unwrap();
    assert_eq!(jar.len(), 1);
    let c = jar.get_index(0);
    assert_eq!(c.domain.as_str(), ".pixiv.net");
    assert_eq!(c.path.as_str(), "/");
    assert!(c.secure);
    assert!(!c.http_only);
    assert_eq!(c.expiration, Some(1784339332));
    assert_eq!(c.name.as_str(), "p_ab_id");
    assert_eq!(c.value.as_str(), "7");
}

#[test]
fn zero_expiration_is_session_cookie() {
    let jar = parse(".pixiv.net\tTRUE\t/\tTRUE\t0\tp_ab_id\t7\n").unwrap();
    assert_eq!(jar.len(), 1);
    assert_eq!(jar.get_index(0).expiration, None);
}

#[test]
fn http_only_line() {
    let jar = parse("#HttpOnly_.example.com\tTRUE\t/\tFALSE\t0\tsess\tabc\n").unwrap();
    assert_eq!(jar.len(), 1);
    let c = jar.get_index(0);
    assert!(c.http_only);
    assert!(!c.secure);
    assert_eq!(c.domain.as_str(), ".example.com");
    assert_eq!(c.name.as_str(), "sess");
    assert_eq!(c.value.as_str(), "abc");
    assert_eq!(c.expiration, None);
}

#[test]
fn too_few_fields() {
    let r = parse("example.com\tTRUE\t/\n");
    assert!(matches!(
        r,
        Err(Error::ParseError(ParseError::TooFewFields))
    ));
}

#[test]
fn invalid_secure_token() {
    let r = parse("example.com\tTRUE\t/\tMAYBE\t0\tn\tv\n");
    match r {
        Err(Error::ParseError(ParseError::InvalidValue(t))) => assert_eq!(t, "MAYBE"),
        other => panic!("expected InvalidValue, got {:?}", other),
    }
}

#[test]
fn comments_and_blank_lines_are_skipped() {
    let jar = parse("# comment\n\nexample.com\tTRUE\t/\tTRUE\t0\tn\tv\n").unwrap();
    assert_eq!(jar.len(), 1);
    assert_eq!(jar.get_index(0).name.as_str(), "n");
}

#[test]
fn comment_only_input_is_empty_jar() {
    let jar = parse("# one\n   \n# two\n").unwrap();
    assert_eq!(jar.len(), 0);
}

#[test]
fn record_count_equals_data_lines() {
    let jar = parse("a\tx\t/\tTRUE\t0\tn1\tv1\n# c\nb\tx\t/\tFALSE\t5\tn2\tv2\n\n#HttpOnly_c\tx\t/\tTRUE\t0\tn3\tv3\n").unwrap();
    assert_eq!(jar.len(), 3);
    assert_eq!(jar.get_index(0).name.as_str(), "n1");
    assert_eq!(jar.get_index(1).name.as_str(), "n2");
    assert_eq!(jar.get_index(2).name.as_str(), "n3");
}

#[test]
fn secure_tokens_are_exact() {
    let jar = parse("a\tx\t/\tTRUE\t0\tn1\tv\nb\tx\t/\tFALSE\t0\tn2\tv\n").unwrap();
    assert!(jar.get("n1").unwrap().secure);
    assert!(!jar.get("n2").unwrap().secure);
    // lowercase is not silently coerced
    let r = parse("a\tx\t/\ttrue\t0\tn\tv\n");
    match r {
        Err(Error::ParseError(ParseError::InvalidValue(t))) => assert_eq!(t, "true"),
        other => panic!("expected InvalidValue, got {:?}", other),
    }
}

#[test]
fn invalid_expiration_token() {
    let r = parse("a\tx\t/\tTRUE\t12x34\tn\tv\n");
    match r {
        Err(Error::ParseError(ParseError::InvalidValue(t))) => assert_eq!(t, "12x34"),
        other => panic!("expected InvalidValue, got {:?}", other),
    }
    let r = parse("a\tx\t/\tTRUE\t\tn\tv\n");
    match r {
        Err(Error::ParseError(ParseError::InvalidValue(t))) => assert_eq!(t, ""),
        other => panic!("expected InvalidValue, got {:?}", other),
    }
}

#[test]
fn signed_expirations() {
    let jar = parse("a\tx\t/\tTRUE\t-5\tneg\tv\nb\tx\t/\tTRUE\t+7\tpos\tv\n").unwrap();
    assert_eq!(jar.get("neg").unwrap().expiration, Some(-5));
    assert_eq!(jar.get("pos").unwrap().expiration, Some(7));
}

#[test]
fn expiration_with_leading_zeros() {
    let jar = parse("a\tx\t/\tTRUE\t000123\tn\tv\n").unwrap();
    assert_eq!(jar.get_index(0).expiration, Some(123));
}

#[test]
fn expiration_range_bounds() {
    let jar = parse("a\tx\t/\tTRUE\t9223372036854775807\tmax\tv\nb\tx\t/\tTRUE\t-9223372036854775808\tmin\tv\n").unwrap();
    assert_eq!(jar.get("max").unwrap().expiration, Some(i64::MAX));
    assert_eq!(jar.get("min").unwrap().expiration, Some(i64::MIN));
    let r = parse("a\tx\t/\tTRUE\t9223372036854775808\tn\tv\n");
    match r {
        Err(Error::ParseError(ParseError::InvalidValue(t))) => {
            assert_eq!(t, "9223372036854775808")
        }
        other => panic!("expected InvalidValue, got {:?}", other),
    }
}

#[test]
fn empty_input_is_empty_jar() {
    assert_eq!(parse("").unwrap().len(), 0);
}

#[test]
fn last_line_needs_no_newline() {
    let jar = parse("a\tx\t/\tTRUE\t0\tn\tv").unwrap();
    assert_eq!(jar.len(), 1);
    assert_eq!(jar.get_index(0).value.as_str(), "v");
}

#[test]
fn hash_without_marker_is_comment() {
    let jar = parse("#HttpOnly\n#HttpOnly_x\ty\t/\tTRUE\t0\tn\tv\n").unwrap();
    assert_eq!(jar.len(), 1);
    assert!(jar.get_index(0).http_only);
    assert_eq!(jar.get_index(0).domain.as_str(), "x");
}

#[test]
fn five_fields_are_too_few() {
    let r = parse("a\tb\t/\tTRUE\t0\n");
    assert!(matches!(
        r,
        Err(Error::ParseError(ParseError::TooFewFields))
    ));
}

#[test]
fn six_fields_are_too_few() {
    let r = parse("a\tx\t/\tTRUE\t0\tn\n");
    assert!(matches!(
        r,
        Err(Error::ParseError(ParseError::TooFewFields))
    ));
}

#[test]
fn bare_http_only_marker_is_too_few() {
    let r = parse("#HttpOnly_\n");
    assert!(matches!(
        r,
        Err(Error::ParseError(ParseError::TooFewFields))
    ));
}

#[test]
fn extra_fields_are_ignored() {
    let jar = parse("a\tx\t/\tTRUE\t0\tn\tv\textra\n").unwrap();
    assert_eq!(jar.len(), 1);
    assert_eq!(jar.get_index(0).value.as_str(), "v");
}

#[test]
fn empty_present_fields_are_accepted() {
    // empty fields in the middle of a line survive; a trailing empty field
    // would be taken off by the line-level trim, a tab being whitespace
    let jar = parse("a\tx\t\tTRUE\t0\t\tv\n").unwrap();
    let c = jar.get_index(0);
    assert_eq!(c.path.as_str(), "");
    assert_eq!(c.name.as_str(), "");
    assert_eq!(c.value.as_str(), "v");
}

#[test]
fn lines_are_trimmed_and_crlf_accepted() {
    let jar = parse("  a\tx\t/\tTRUE\t0\tn\tv  \r\nb\tx\t/\tFALSE\t1\tm\tw\r\n").unwrap();
    assert_eq!(jar.len(), 2);
    assert_eq!(jar.get_index(0).domain.as_str(), "a");
    assert_eq!(jar.get_index(0).value.as_str(), "v");
    assert_eq!(jar.get_index(1).name.as_str(), "m");
}

#[test]
fn error_aborts_whole_parse() {
    // a valid line before the bad one yields no partial jar
    let r = parse("a\tx\t/\tTRUE\t0\tn\tv\nbad\tline\n");
    assert!(matches!(
        r,
        Err(Error::ParseError(ParseError::TooFewFields))
    ));
}

#[test]
fn error_messages() {
    match parse("a\tx\t/\tMAYBE\t0\tn\tv\n") {
        Err(e) => {
            assert_eq!(e.message(), "ParseError: InvalidValue: MAYBE");
            match e {
                Error::ParseError(pe) => assert_eq!(pe.message(), "InvalidValue: MAYBE"),
                other => panic!("expected ParseError, got {:?}", other),
            }
        }
        Ok(_) => panic!("expected an error"),
    }
    match parse("a\tb\n") {
        Err(Error::ParseError(pe)) => assert_eq!(pe.message(), "TooFewFields"),
        other => panic!("expected TooFewFields, got {:?}", other),
    }
    let io = Error::from(std::io::Error::new(std::io::ErrorKind::NotFound, "gone"));
    assert_eq!(io.message(), "IoError");
}
