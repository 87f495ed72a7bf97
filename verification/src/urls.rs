//! Verified text construction: decimal formatting, endpoint URLs, and the
//! capture-date format.

use vstd::prelude::*;
use vstd::string::StringExecFns;

verus! {

/// Relies on `String::push`: appends exactly the one character.
#[verifier::external_body]
pub(crate) fn push_char(s: &mut String, c: char)
    ensures
        final (s)@ == old(s)@ + seq![c],
{
    s.push(c);
}

/// The digit character of a value below ten.
pub open spec fn dec_digit(d: int) -> char {
    ((48 + d) as u8) as char
}

/// Decimal digits of a non-negative integer, most significant first.
pub open spec fn dec_chars(n: int) -> Seq<char>
    recommends
        n >= 0,
    decreases n,
{
    if n < 10 {
        seq![dec_digit(n)]
    } else {
        dec_chars(n / 10) + seq![dec_digit(n % 10)]
    }
}

/// Decimal digits of an integer, with a leading minus sign when negative.
pub open spec fn dec_chars_signed(n: int) -> Seq<char> {
    if n < 0 {
        seq!['-'] + dec_chars(-n)
    } else {
        dec_chars(n)
    }
}

proof fn lemma_dec_chars_len(n: int)
    requires
        n >= 0,
    ensures
        dec_chars(n).len() >= 1,
        dec_chars(n).len() == 1 <==> n < 10,
    decreases n,
{
    if n >= 10 {
        lemma_dec_chars_len(n / 10);
    }
}

fn push_dec_u64(s: &mut String, n: u64)
    ensures
        final (s)@ == old(s)@ + dec_chars(n as int),
    decreases n,
{
    if n < 10 {
        let d: u8 = 48 + (n as u8);
        push_char(s, d as char);
    } else {
        let q = n / 10;
        let r = n % 10;
        push_dec_u64(s, q);
        let d: u8 = 48 + (r as u8);
        push_char(s, d as char);
        proof {
            assert(s@ =~= old(s)@ + dec_chars(n as int));
        }
    }
}

fn push_dec_i64(s: &mut String, n: i64)
    ensures
        final (s)@ == old(s)@ + dec_chars_signed(n as int),
{
    if n < 0 {
        push_char(s, '-');
        let m: u64 = (-(n as i128)) as u64;
        push_dec_u64(s, m);
        proof {
            assert(s@ =~= old(s)@ + dec_chars_signed(n as int));
        }
    } else {
        push_dec_u64(s, n as u64);
    }
}

/// The decimal text of a non-negative integer.
pub fn format_u64(n: u64) -> (s: String)
    ensures
        s@ == dec_chars(n as int),
{
    let mut s = String::new();
    push_dec_u64(&mut s, n);
    proof {
        assert(s@ =~= dec_chars(n as int));
    }
    s
}

/// A capture date as "YYYY-MM": the year, a dash, and the month zero-padded
/// to two characters.
pub open spec fn date_chars(year: int, month: int) -> Seq<char> {
    let m = dec_chars_signed(month);
    dec_chars_signed(year) + seq!['-'] + (if m.len() < 2 {
        seq!['0'] + m
    } else {
        m
    })
}

/// Format a capture date as "YYYY-MM".
pub fn format_capture_date(year: i64, month: i64) -> (s: String)
    ensures
        s@ == date_chars(year as int, month as int),
{
    let mut s = String::new();
    push_dec_i64(&mut s, year);
    push_char(&mut s, '-');
    proof {
        if month >= 0 {
            lemma_dec_chars_len(month as int);
        } else {
            lemma_dec_chars_len(-(month as int));
        }
    }
    if 0 <= month && month <= 9 {
        push_char(&mut s, '0');
    }
    push_dec_i64(&mut s, month);
    proof {
        assert(s@ =~= date_chars(year as int, month as int));
    }
    s
}

/// The tile download URL for one tile of one panorama.
pub open spec fn download_url_chars(pano_id: Seq<char>, zoom: int, x: int, y: int) -> Seq<char> {
    "https://cbk0.google.com/cbk?output=tile&panoid="@ + pano_id + "&zoom="@ + dec_chars(zoom)
        + "&x="@ + dec_chars(x) + "&y="@ + dec_chars(y)
}

/// Build the download URL for a single tile.
pub fn make_download_url(pano_id: &str, zoom: u8, x: u32, y: u32) -> (url: String)
    ensures
        url@ == download_url_chars(pano_id@, zoom as int, x as int, y as int),
{
    let mut s = String::new();
    s.append("https://cbk0.google.com/cbk?output=tile&panoid=");
    s.append(pano_id);
    s.append("&zoom=");
    push_dec_u64(&mut s, zoom as u64);
    s.append("&x=");
    push_dec_u64(&mut s, x as u64);
    s.append("&y=");
    push_dec_u64(&mut s, y as u64);
    proof {
        assert(s@ =~= download_url_chars(pano_id@, zoom as int, x as int, y as int));
    }
    s
}

/// Decimal text holds digit characters only.
proof fn lemma_dec_chars_digits(n: int)
    requires
        n >= 0,
    ensures
        forall|i: int|
            0 <= i < dec_chars(n).len() ==> '0' <= #[trigger] dec_chars(n)[i] <= '9',
    decreases n,
{
    if n >= 10 {
        lemma_dec_chars_digits(n / 10);
        assert forall|i: int|
            0 <= i < dec_chars(n).len() implies '0' <= #[trigger] dec_chars(n)[i] <= '9' by {
            if i < dec_chars(n / 10).len() {
                assert(dec_chars(n)[i] == dec_chars(n / 10)[i]);
            }
        }
    }
}

/// A value below ten is its digit character's distance from '0'.
proof fn lemma_dec_digit_injective(d1: int, d2: int)
    requires
        0 <= d1 < 10,
        0 <= d2 < 10,
        dec_digit(d1) == dec_digit(d2),
    ensures
        d1 == d2,
{
    assert(dec_digit(d1) as u8 == dec_digit(d2) as u8);
}

/// Two equal decimal texts come from the same value.
proof fn lemma_dec_chars_injective(n1: int, n2: int)
    requires
        n1 >= 0,
        n2 >= 0,
        dec_chars(n1) == dec_chars(n2),
    ensures
        n1 == n2,
    decreases n1,
{
    lemma_dec_chars_len(n1);
    lemma_dec_chars_len(n2);
    if n1 < 10 && n2 < 10 {
        assert(dec_chars(n1)[0] == dec_digit(n1) && dec_chars(n2)[0] == dec_digit(n2));
        assert(dec_chars(n1)[0] == dec_chars(n2)[0]);
        lemma_dec_digit_injective(n1, n2);
    } else if n1 >= 10 && n2 >= 10 {
        assert(dec_chars(n1).last() == dec_digit(n1 % 10) && dec_chars(n2).last() == dec_digit(
            n2 % 10,
        ));
        assert(dec_chars(n1).last() == dec_chars(n2).last());
        lemma_dec_digit_injective(n1 % 10, n2 % 10);
        assert(dec_chars(n1).drop_last() =~= dec_chars(n1 / 10));
        assert(dec_chars(n2).drop_last() =~= dec_chars(n2 / 10));
        lemma_dec_chars_injective(n1 / 10, n2 / 10);
        vstd::arithmetic::div_mod::lemma_fundamental_div_mod(n1, 10);
        vstd::arithmetic::div_mod::lemma_fundamental_div_mod(n2, 10);
    } else {
        assert(dec_chars(n1).len() == dec_chars(n2).len());
        assert(false);
    }
}

/// Splitting two equal texts at a separator that their tails are free of:
/// the parts before the separator agree, and so do the tails.
proof fn lemma_split_at_last_sep(
    a1: Seq<char>,
    d1: Seq<char>,
    a2: Seq<char>,
    d2: Seq<char>,
    sep: char,
)
    requires
        a1 + seq![sep] + d1 == a2 + seq![sep] + d2,
        forall|i: int| 0 <= i < d1.len() ==> #[trigger] d1[i] != sep,
        forall|i: int| 0 <= i < d2.len() ==> #[trigger] d2[i] != sep,
    ensures
        a1 == a2,
        d1 == d2,
{
    let u = a1 + seq![sep] + d1;
    let v = a2 + seq![sep] + d2;
    assert(u.len() == v.len());
    if d1.len() < d2.len() {
        let pos = u.len() - d1.len() - 1;
        assert(u[pos] == sep);
        assert(v[pos] == d2[pos - a2.len() - 1]);
        assert(false);
    }
    if d2.len() < d1.len() {
        let pos = v.len() - d2.len() - 1;
        assert(v[pos] == sep);
        assert(u[pos] == d1[pos - a1.len() - 1]);
        assert(false);
    }
    assert(a1.len() == a2.len());
    assert forall|i: int| 0 <= i < a1.len() implies a1[i] == a2[i] by {
        assert(u[i] == a1[i] && v[i] == a2[i]);
    }
    assert forall|i: int| 0 <= i < d1.len() implies d1[i] == d2[i] by {
        assert(u[a1.len() + 1 + i] == d1[i] && v[a2.len() + 1 + i] == d2[i]);
    }
    assert(a1 =~= a2);
    assert(d1 =~= d2);
}

/// Tile locators are injective: for one panorama, distinct (zoom, x, y)
/// triples always yield distinct download URLs.
pub proof fn lemma_download_url_injective(
    pano: Seq<char>,
    z1: int,
    x1: int,
    y1: int,
    z2: int,
    x2: int,
    y2: int,
)
    requires
        0 <= z1 && 0 <= x1 && 0 <= y1,
        0 <= z2 && 0 <= x2 && 0 <= y2,
        download_url_chars(pano, z1, x1, y1) == download_url_chars(pano, z2, x2, y2),
    ensures
        z1 == z2 && x1 == x2 && y1 == y2,
{
    reveal_strlit("https://cbk0.google.com/cbk?output=tile&panoid=");
    reveal_strlit("&zoom=");
    reveal_strlit("&x=");
    reveal_strlit("&y=");
    let head = "https://cbk0.google.com/cbk?output=tile&panoid="@;
    lemma_dec_chars_digits(z1);
    lemma_dec_chars_digits(x1);
    lemma_dec_chars_digits(y1);
    lemma_dec_chars_digits(z2);
    lemma_dec_chars_digits(x2);
    lemma_dec_chars_digits(y2);

    // Peel the longitude of the address: everything after the last '=' is
    // the digits of y.
    let a1 = head + pano + "&zoom="@ + dec_chars(z1) + "&x="@ + dec_chars(x1) + seq!['&', 'y'];
    let a2 = head + pano + "&zoom="@ + dec_chars(z2) + "&x="@ + dec_chars(x2) + seq!['&', 'y'];
    assert(download_url_chars(pano, z1, x1, y1) =~= a1 + seq!['='] + dec_chars(y1));
    assert(download_url_chars(pano, z2, x2, y2) =~= a2 + seq!['='] + dec_chars(y2));
    lemma_split_at_last_sep(a1, dec_chars(y1), a2, dec_chars(y2), '=');
    lemma_dec_chars_injective(y1, y2);

    // Peel the x coordinate the same way, its digits now carrying a fixed
    // two-character tail.
    let b1 = head + pano + "&zoom="@ + dec_chars(z1) + seq!['&', 'x'];
    let b2 = head + pano + "&zoom="@ + dec_chars(z2) + seq!['&', 'x'];
    let t1 = dec_chars(x1) + seq!['&', 'y'];
    let t2 = dec_chars(x2) + seq!['&', 'y'];
    assert(a1 =~= b1 + seq!['='] + t1);
    assert(a2 =~= b2 + seq!['='] + t2);
    assert forall|i: int| 0 <= i < t1.len() implies #[trigger] t1[i] != '=' by {
        if i < dec_chars(x1).len() {
            assert(t1[i] == dec_chars(x1)[i]);
        }
    }
    assert forall|i: int| 0 <= i < t2.len() implies #[trigger] t2[i] != '=' by {
        if i < dec_chars(x2).len() {
            assert(t2[i] == dec_chars(x2)[i]);
        }
    }
    lemma_split_at_last_sep(b1, t1, b2, t2, '=');
    assert(t1.drop_last().drop_last() =~= dec_chars(x1));
    assert(t2.drop_last().drop_last() =~= dec_chars(x2));
    lemma_dec_chars_injective(x1, x2);

    // Peel the zoom level last.
    let c1 = head + pano + seq!['&', 'z', 'o', 'o', 'm'];
    let c2 = head + pano + seq!['&', 'z', 'o', 'o', 'm'];
    let s1 = dec_chars(z1) + seq!['&', 'x'];
    let s2 = dec_chars(z2) + seq!['&', 'x'];
    assert(b1 =~= c1 + seq!['='] + s1);
    assert(b2 =~= c2 + seq!['='] + s2);
    assert forall|i: int| 0 <= i < s1.len() implies #[trigger] s1[i] != '=' by {
        if i < dec_chars(z1).len() {
            assert(s1[i] == dec_chars(z1)[i]);
        }
    }
    assert forall|i: int| 0 <= i < s2.len() implies #[trigger] s2[i] != '=' by {
        if i < dec_chars(z2).len() {
            assert(s2[i] == dec_chars(z2)[i]);
        }
    }
    lemma_split_at_last_sep(c1, s1, c2, s2, '=');
    assert(s1.drop_last().drop_last() =~= dec_chars(z1));
    assert(s2.drop_last().drop_last() =~= dec_chars(z2));
    lemma_dec_chars_injective(z1, z2);
}

/// The metadata endpoint URL for one panorama.
pub open spec fn metadata_url_chars(pano_id: Seq<char>, api_key: Seq<char>) -> Seq<char> {
    "https://maps.googleapis.com/maps/api/streetview/metadata?pano="@ + pano_id + "&key="@
        + api_key
}

/// Build the URL of the official metadata endpoint.
pub fn make_metadata_url(pano_id: &str, api_key: &str) -> (url: String)
    ensures
        url@ == metadata_url_chars(pano_id@, api_key@),
{
    let mut s = String::new();
    s.append("https://maps.googleapis.com/maps/api/streetview/metadata?pano=");
    s.append(pano_id);
    s.append("&key=");
    s.append(api_key);
    proof {
        assert(s@ =~= metadata_url_chars(pano_id@, api_key@));
    }
    s
}

/// The partial-view endpoint URL for one panorama and camera setting.
pub open spec fn streetview_url_chars(
    pano_id: Seq<char>,
    api_key: Seq<char>,
    width: int,
    height: int,
    heading: int,
    fov: int,
    pitch: int,
) -> Seq<char> {
    "https://maps.googleapis.com/maps/api/streetview?size="@ + dec_chars(width) + "x"@ + dec_chars(
        height,
    ) + "&fov="@ + dec_chars(fov) + "&pitch="@ + dec_chars_signed(pitch) + "&heading="@
        + dec_chars(heading) + "&pano="@ + pano_id + "&key="@ + api_key
}

/// Build the URL of the official partial-view endpoint.
pub fn make_streetview_url(
    pano_id: &str,
    api_key: &str,
    width: u32,
    height: u32,
    heading: u16,
    fov: u16,
    pitch: i16,
) -> (url: String)
    ensures
        url@ == streetview_url_chars(
            pano_id@,
            api_key@,
            width as int,
            height as int,
            heading as int,
            fov as int,
            pitch as int,
        ),
{
    let mut s = String::new();
    s.append("https://maps.googleapis.com/maps/api/streetview?size=");
    push_dec_u64(&mut s, width as u64);
    s.append("x");
    push_dec_u64(&mut s, height as u64);
    s.append("&fov=");
    push_dec_u64(&mut s, fov as u64);
    s.append("&pitch=");
    push_dec_i64(&mut s, pitch as i64);
    s.append("&heading=");
    push_dec_u64(&mut s, heading as u64);
    s.append("&pano=");
    s.append(pano_id);
    s.append("&key=");
    s.append(api_key);
    proof {
        assert(s@ =~= streetview_url_chars(
            pano_id@,
            api_key@,
            width as int,
            height as int,
            heading as int,
            fov as int,
            pitch as int,
        ));
    }
    s
}

/// The search endpoint URL around one coordinate, the latitude and
/// longitude already written as decimal text.
pub open spec fn search_url_chars(lat: Seq<char>, lon: Seq<char>) -> Seq<char> {
    "https://maps.googleapis.com/maps/api/js/GeoPhotoService.SingleImageSearch?pb=!1m5!1sapiv3!5sUS!11m2!1m1!1b0!2m4!1m2!3d"@
        + lat + "!4d"@ + lon
        + "!2d50!3m18!2m2!1sen!2sUS!9m1!1e2!11m12!1m3!1e2!2b1!3e2!1m3!1e3!2b1!3e2!1m3!1e10!2b1!3e2!4m6!1e1!1e2!1e3!1e4!1e8!1e6&callback=callbackfunc"@
}

/// Build the search URL for a coordinate given as decimal text.
pub fn make_search_url(lat: &str, lon: &str) -> (url: String)
    ensures
        url@ == search_url_chars(lat@, lon@),
{
    let mut s = String::new();
    s.append(
        "https://maps.googleapis.com/maps/api/js/GeoPhotoService.SingleImageSearch?pb=!1m5!1sapiv3!5sUS!11m2!1m1!1b0!2m4!1m2!3d",
    );
    s.append(lat);
    s.append("!4d");
    s.append(lon);
    s.append(
        "!2d50!3m18!2m2!1sen!2sUS!9m1!1e2!11m12!1m3!1e2!2b1!3e2!1m3!1e3!2b1!3e2!1m3!1e10!2b1!3e2!4m6!1e1!1e2!1e3!1e4!1e8!1e6&callback=callbackfunc",
    );
    proof {
        assert(s@ =~= search_url_chars(lat@, lon@));
    }
    s
}

} // verus!
