use biliup::upload::{bda, bda2, bldsa, cos, cos_internal, kodo, parse_decimal, qn, tx, txa, ws, Uploader, Vid, Video, ParseVidError};

#[test]
fn upload_lines() {
    let l = kodo();
    assert_eq!(l.os, Uploader::Kodo);
    assert_eq!(l.query, "bucket=bvcupcdnkodobm&probe_version=20211012");
    assert_eq!(l.probe_url, "//up-na0.qbox.me/crossdomain.xml");
    assert_eq!(l.cost, 0);
    for (l, name) in [(bda2(), "bda2"), (ws(), "ws"), (qn(), "qn"), (bldsa(), "bldsa"), (tx(), "tx"), (txa(), "txa"), (bda(), "bda")] {
        assert_eq!(l.os, Uploader::Upos);
        assert!(l.query.contains(&format!("upcdn={}&", name)) || l.query.contains(&format!("upcdn={}", name)));
        assert_eq!(l.probe_url, format!("//upos-cs-upcdn{}.bilivideo.com/OK", name));
    }
    assert_eq!(cos().os, Uploader::Cos);
    assert_eq!(cos().probe_url, "");
    assert_eq!(cos_internal().probe_url, "internal");
    assert_eq!(cos_internal().query, "");
}

#[test]
fn video_new() {
    let v = Video::new("n220312abc.flv");
    assert_eq!(v.filename, "n220312abc.flv");
    assert_eq!(v.title, None);
    assert_eq!(v.desc, "");
}

#[test]
fn vid_forms() {
    assert_eq!(Vid::parse("  BV1ip4y1x7Gi \n"), Ok(Vid::Bvid("BV1ip4y1x7Gi".into())));
    assert_eq!(Vid::parse(" av12 "), Ok(Vid::Aid(12)));
    assert_eq!(Vid::parse("+7"), Ok(Vid::Aid(7)));
    assert_eq!(Vid::parse("av"), Err(ParseVidError));
    assert_eq!(Vid::parse("a"), Err(ParseVidError));
    assert_eq!(Vid::parse("12x"), Err(ParseVidError));
    assert_eq!(Vid::parse("18446744073709551615"), Ok(Vid::Aid(u64::MAX)));
    assert_eq!(Vid::parse("18446744073709551616"), Err(ParseVidError));
    assert_eq!(Vid::parse_trimmed(" 5"), Err(ParseVidError));
    assert_eq!(Vid::parse("\u{3000}av5\u{a0}\t"), Ok(Vid::Aid(5)));
    assert_eq!(Vid::parse("\u{200b}5"), Err(ParseVidError));
}

#[test]
fn decimal_reading() {
    let d: Vec<char> = "0042".chars().collect();
    assert_eq!(parse_decimal(&d), Some(42));
    assert_eq!(parse_decimal(&['+']), None);
    assert_eq!(parse_decimal(&[]), None);
    assert_eq!(parse_decimal(&['-', '1']), None);
}
