//! Records that a finished recording is uploaded with: the upload lines and
//! the video identifiers of the hosting site.
use vstd::prelude::*;
use vstd::std_specs::iter::IteratorSpec;

verus! {

broadcast use {vstd::string::axiom_spec_iter, vstd::string::next_postcondition};

/// The upload protocol that a line speaks.
#[derive(PartialEq, Eq, Structural, Clone, Copy, Debug)]
pub enum Uploader {
    Upos,
    Kodo,
    Bos,
    Gcs,
    Cos,
}

/// An upload line: where to probe it and what to ask for.
pub struct Line {
    pub os: Uploader,
    pub probe_url: String,
    pub query: String,
    /// Measured probe cost; lower is better.
    pub cost: u128,
}

/// A line with the given protocol, query and probe URL, not yet probed.
pub open spec fn line_is(l: Line, os: Uploader, query: Seq<char>, probe_url: Seq<char>) -> bool {
    l.os == os && l.query@ == query && l.probe_url@ == probe_url && l.cost == 0
}

fn make_line(os: Uploader, query: &str, probe_url: &str) -> (r: Line)
    ensures
        line_is(r, os, query@, probe_url@),
{
    Line { os, query: query.to_owned(), probe_url: probe_url.to_owned(), cost: 0 }
}

pub fn kodo() -> (r: Line)
    ensures
        line_is(r, Uploader::Kodo, "bucket=bvcupcdnkodobm&probe_version=20211012"@, "//up-na0.qbox.me/crossdomain.xml"@),
{
    make_line(Uploader::Kodo, "bucket=bvcupcdnkodobm&probe_version=20211012", "//up-na0.qbox.me/crossdomain.xml")
}

pub fn bda2() -> (r: Line)
    ensures
        line_is(r, Uploader::Upos, "probe_version=20221109&upcdn=bda2&zone=cs"@, "//upos-cs-upcdnbda2.bilivideo.com/OK"@),
{
    make_line(Uploader::Upos, "probe_version=20221109&upcdn=bda2&zone=cs", "//upos-cs-upcdnbda2.bilivideo.com/OK")
}

pub fn ws() -> (r: Line)
    ensures
        line_is(r, Uploader::Upos, "probe_version=20221109&upcdn=ws&zone=cs"@, "//upos-cs-upcdnws.bilivideo.com/OK"@),
{
    make_line(Uploader::Upos, "probe_version=20221109&upcdn=ws&zone=cs", "//upos-cs-upcdnws.bilivideo.com/OK")
}

pub fn qn() -> (r: Line)
    ensures
        line_is(r, Uploader::Upos, "probe_version=20221109&upcdn=qn&zone=cs"@, "//upos-cs-upcdnqn.bilivideo.com/OK"@),
{
    make_line(Uploader::Upos, "probe_version=20221109&upcdn=qn&zone=cs", "//upos-cs-upcdnqn.bilivideo.com/OK")
}

pub fn bldsa() -> (r: Line)
    ensures
        line_is(r, Uploader::Upos, "zone=cs&upcdn=bldsa&probe_version=20221109"@, "//upos-cs-upcdnbldsa.bilivideo.com/OK"@),
{
    make_line(Uploader::Upos, "zone=cs&upcdn=bldsa&probe_version=20221109", "//upos-cs-upcdnbldsa.bilivideo.com/OK")
}

pub fn tx() -> (r: Line)
    ensures
        line_is(r, Uploader::Upos, "zone=cs&upcdn=tx&probe_version=20221109"@, "//upos-cs-upcdntx.bilivideo.com/OK"@),
{
    make_line(Uploader::Upos, "zone=cs&upcdn=tx&probe_version=20221109", "//upos-cs-upcdntx.bilivideo.com/OK")
}

pub fn txa() -> (r: Line)
    ensures
        line_is(r, Uploader::Upos, "zone=cs&upcdn=txa&probe_version=20221109"@, "//upos-cs-upcdntxa.bilivideo.com/OK"@),
{
    make_line(Uploader::Upos, "zone=cs&upcdn=txa&probe_version=20221109", "//upos-cs-upcdntxa.bilivideo.com/OK")
}

pub fn bda() -> (r: Line)
    ensures
        line_is(r, Uploader::Upos, "probe_version=20221109&upcdn=bda&zone=cs"@, "//upos-cs-upcdnbda.bilivideo.com/OK"@),
{
    make_line(Uploader::Upos, "probe_version=20221109&upcdn=bda&zone=cs", "//upos-cs-upcdnbda.bilivideo.com/OK")
}

pub fn cos() -> (r: Line)
    ensures
        line_is(
            r,
            Uploader::Cos,
            "&probe_version=20211012&r=cos&profile=ugcupos%2Fbupfetch&ssl=0&version=2.10.4.0&build=2100400&webVersion=2.0.0"@,
            ""@,
        ),
{
    make_line(
        Uploader::Cos,
        "&probe_version=20211012&r=cos&profile=ugcupos%2Fbupfetch&ssl=0&version=2.10.4.0&build=2100400&webVersion=2.0.0",
        "",
    )
}

/// The Cos line reached from inside its own network.
pub fn cos_internal() -> (r: Line)
    ensures
        line_is(r, Uploader::Cos, ""@, "internal"@),
{
    make_line(Uploader::Cos, "", "internal")
}

/// A video of a submission: the uploaded file's name on the site.
pub struct Video {
    pub title: Option<String>,
    pub filename: String,
    pub desc: String,
}

impl Video {
    pub fn new(filename: &str) -> (r: Video)
        ensures
            r.title is None,
            r.filename@ == filename@,
            r.desc@ == Seq::<char>::empty(),
    {
        Video { title: None, filename: filename.to_owned(), desc: String::new() }
    }
}

#[derive(Debug, Default)]
pub struct Subtitle {
    pub open: i8,
    pub lan: String,
}

/// One part of a structured description.
#[derive(Debug)]
pub struct Credit {
    pub type_id: i8,
    pub raw_text: String,
    pub biz_id: Option<String>,
}

/// A submission's settings.
#[derive(Debug)]
pub struct Studio {
    /// 1: made by the uploader, 2: a repost.
    pub copyright: u8,
    pub source: String,
    /// The category.
    pub tid: u16,
    pub cover: String,
    pub title: String,
    pub desc_format_id: u32,
    pub desc: String,
    pub desc_v2: Option<Vec<Credit>>,
    pub dynamic: String,
    pub subtitle: Subtitle,
    pub up_close_danmu: bool,
}

/// A video's identifier: a numeric aid or a "BV" id.
#[derive(PartialEq, Eq, Clone, Debug)]
pub enum Vid {
    Aid(u64),
    Bvid(String),
}

/// The text is neither a "BV" id nor a decimal number that fits a u64.
#[derive(PartialEq, Eq, Structural, Clone, Copy, Debug)]
pub struct ParseVidError;

pub open spec fn is_digit(c: char) -> bool {
    '0' <= c && c <= '9'
}

/// The value of a run of decimal digits.
pub open spec fn digits_value(s: Seq<char>) -> int
    decreases s.len(),
{
    if s.len() == 0 {
        0
    } else {
        digits_value(s.drop_last()) * 10 + (s.last() as int - '0' as int)
    }
}

/// The text after an optional leading '+'.
pub open spec fn sign_stripped(s: Seq<char>) -> Seq<char> {
    if s.len() > 0 && s[0] == '+' { s.skip(1) } else { s }
}

pub open spec fn all_digits(d: Seq<char>) -> bool {
    forall|i: int| 0 <= i < d.len() ==> is_digit(#[trigger] d[i])
}

/// What `u64::from_str` gives: an optional '+' then at least one digit,
/// with a value that fits.
pub open spec fn decimal_of(s: Seq<char>) -> Option<u64> {
    let d = sign_stripped(s);
    if d.len() > 0 && all_digits(d) && digits_value(d) <= u64::MAX {
        Some(digits_value(d) as u64)
    } else {
        None
    }
}

proof fn lemma_digits_prefix(s: Seq<char>, k: int)
    requires
        0 <= k <= s.len(),
        forall|i: int| 0 <= i < s.len() ==> is_digit(#[trigger] s[i]),
    ensures
        digits_value(s) >= digits_value(s.take(k)) >= 0,
    decreases s.len(),
{
    if s.len() > 0 {
        assert forall|i: int| 0 <= i < s.drop_last().len() implies is_digit(#[trigger] s.drop_last()[i]) by {
            assert(s.drop_last()[i] == s[i]);
        }
        if k == s.len() {
            assert(s.take(k) =~= s);
            lemma_digits_prefix(s.drop_last(), k - 1);
        } else {
            lemma_digits_prefix(s.drop_last(), k);
            assert(s.drop_last().take(k) =~= s.take(k));
        }
        assert(is_digit(s.last()));
    } else {
        assert(s.take(k) =~= s);
    }
}

/// Reads a decimal number as `u64::from_str` does.
pub fn parse_decimal(s: &[char]) -> (r: Option<u64>)
    ensures
        r == decimal_of(s@),
{
    let start: usize = if s.len() > 0 && s[0] == '+' { 1 } else { 0 };
    let ghost d = sign_stripped(s@);
    assert(d =~= s@.skip(start as int));
    if start >= s.len() {
        return None;
    }
    let mut v: u64 = 0;
    let mut i: usize = start;
    assert(d.take(0) =~= Seq::<char>::empty());
    while i < s.len()
        invariant
            start <= i <= s@.len(),
            d == s@.skip(start as int),
            d == sign_stripped(s@),
            forall|k: int| 0 <= k < i - start ==> is_digit(#[trigger] d[k]),
            v == digits_value(d.take(i - start)),
        decreases s@.len() - i,
    {
        let c = s[i];
        assert(d[i - start] == c);
        if !('0' <= c && c <= '9') {
            assert(!is_digit(d[i - start]));
            assert(!all_digits(d));
            assert(decimal_of(s@) is None);
            return None;
        }
        let digit = (c as u32 - '0' as u32) as u64;
        assert(d.take(i - start + 1).drop_last() =~= d.take(i - start));
        assert(d.take(i - start + 1).last() == c);
        if v > (u64::MAX - digit) / 10 {
            proof {
                assert forall|k: int| 0 <= k < i - start + 1 implies is_digit(#[trigger] d.take(i - start + 1)[k]) by {
                    assert(d.take(i - start + 1)[k] == d[k]);
                }
                assert(v * 10 + digit > u64::MAX) by (nonlinear_arith)
                    requires v > (u64::MAX - digit) / 10, digit <= 9;
                assert(digits_value(d.take(i - start + 1)) == v * 10 + digit);
                if all_digits(d) {
                    lemma_digits_prefix(d, i - start + 1);
                    assert(digits_value(d) > u64::MAX);
                }
                assert(decimal_of(s@) is None);
            }
            return None;
        }
        v = v * 10 + digit;
        i += 1;
    }
    assert(d.take(i - start) =~= d);
    Some(v)
}

/// Unicode's White_Space characters.
pub open spec fn is_white_space(c: char) -> bool {
    ('\u{9}' <= c && c <= '\u{d}') || c == ' ' || c == '\u{85}' || c == '\u{a0}' || c == '\u{1680}'
        || ('\u{2000}' <= c && c <= '\u{200a}') || c == '\u{2028}' || c == '\u{2029}' || c == '\u{202f}'
        || c == '\u{205f}' || c == '\u{3000}'
}

/// The text without its leading white space.
pub open spec fn trim_start_spec(s: Seq<char>) -> Seq<char>
    decreases s.len(),
{
    if s.len() > 0 && is_white_space(s[0]) { trim_start_spec(s.skip(1)) } else { s }
}

/// The text without its trailing white space.
pub open spec fn trim_end_spec(s: Seq<char>) -> Seq<char>
    decreases s.len(),
{
    if s.len() > 0 && is_white_space(s.last()) { trim_end_spec(s.drop_last()) } else { s }
}

/// The text without leading and trailing white space.
pub open spec fn trimmed(s: Seq<char>) -> Seq<char> {
    trim_end_spec(trim_start_spec(s))
}

/// Relies on str::trim: the text without the leading and trailing
/// characters that Unicode's White_Space property lists.
#[verifier::external_body]
fn trim_str(s: &str) -> (r: &str)
    ensures
        r@ == trimmed(s@),
{
    s.trim()
}

/// The characters of a text, in order.
fn chars_of(s: &str) -> (r: Vec<char>)
    ensures
        r@ == s@,
{
    let mut it = s.chars();
    let mut r: Vec<char> = Vec::new();
    loop
        invariant
            r@ + it.remaining() == s@,
            it.decrease() is Some,
        ensures
            r@ == s@,
        decreases it.decrease()->0,
    {
        match it.next() {
            Some(c) => {
                r.push(c);
                assert(r@ + it.remaining() =~= s@);
            },
            None => {
                assert(r@ =~= s@);
                break;
            },
        }
    }
    r
}

pub open spec fn has_prefix(t: Seq<char>, a: char, b: char) -> bool {
    t.len() >= 2 && t[0] == a && t[1] == b
}

impl Vid {
    /// Reads an already trimmed identifier: "BV..." is a BV id as it
    /// stands; "av<n>" and "<n>" are the aid n.
    pub fn parse_trimmed(t: &str) -> (r: Result<Vid, ParseVidError>)
        ensures
            has_prefix(t@, 'B', 'V') ==> (r matches Ok(Vid::Bvid(b)) && b@ == t@),
            !has_prefix(t@, 'B', 'V') ==> {
                let digits = if has_prefix(t@, 'a', 'v') { t@.skip(2) } else { t@ };
                match decimal_of(digits) {
                    Some(n) => r == Ok::<Vid, ParseVidError>(Vid::Aid(n)),
                    None => r == Err::<Vid, ParseVidError>(ParseVidError),
                }
            },
    {
        let mut c = chars_of(t);
        if c.len() >= 2 && c[0] == 'B' && c[1] == 'V' {
            return Ok(Vid::Bvid(t.to_owned()));
        }
        let parsed = if c.len() >= 2 && c[0] == 'a' && c[1] == 'v' {
            let rest = c.split_off(2);
            assert(rest@ =~= t@.skip(2));
            parse_decimal(rest.as_slice())
        } else {
            parse_decimal(c.as_slice())
        };
        match parsed {
            Some(n) => Ok(Vid::Aid(n)),
            None => Err(ParseVidError),
        }
    }

    /// Reads an identifier, ignoring surrounding white space.
    pub fn parse(s: &str) -> (r: Result<Vid, ParseVidError>)
        ensures
            has_prefix(trimmed(s@), 'B', 'V') ==> (r matches Ok(Vid::Bvid(b)) && b@ == trimmed(s@)),
            !has_prefix(trimmed(s@), 'B', 'V') ==> {
                let digits = if has_prefix(trimmed(s@), 'a', 'v') { trimmed(s@).skip(2) } else { trimmed(s@) };
                match decimal_of(digits) {
                    Some(n) => r == Ok::<Vid, ParseVidError>(Vid::Aid(n)),
                    None => r == Err::<Vid, ParseVidError>(ParseVidError),
                }
            },
    {
        Vid::parse_trimmed(trim_str(s))
    }
}

impl std::str::FromStr for Vid {
    type Err = ParseVidError;

    fn from_str(s: &str) -> Result<Vid, ParseVidError> {
        Vid::parse(s)
    }
}

} // verus!
