//! Targets of a run: their search link, their quota, where their images go.
use vstd::prelude::*;
use vstd::string::StringExecFns;

verus! {

/// Search page that a record's query is appended to.
pub const SEARCH_PREFIX: &'static str = "https://www.pinterest.com/search/pins/?q=";

/// Folder of the images of a run on a single link.
pub const SINGLE_TARGET_FOLDER: &'static str = "pinterest_search";

/// What urlencoding::encode returns for a text.
pub uninterp spec fn url_encoded(s: Seq<char>) -> Seq<char>;

/// What sanitize_filename::sanitize_with_options returns for a name, with
/// Windows rules on or off, names truncated, and illegal characters removed.
pub uninterp spec fn sanitized(s: Seq<char>, windows: bool) -> Seq<char>;

pub open spec fn is_unreserved(c: char) -> bool {
    ('a' <= c && c <= 'z') || ('A' <= c && c <= 'Z') || ('0' <= c && c <= '9') || c == '-' || c
        == '_' || c == '.' || c == '~'
}

pub open spec fn hex_digit(d: nat) -> char {
    seq!['0', '1', '2', '3', '4', '5', '6', '7', '8', '9', 'A', 'B', 'C', 'D', 'E', 'F'][d as int]
}

/// One ASCII character, percent-encoded unless it is unreserved.
pub open spec fn percent_encode_ascii_char(c: char) -> Seq<char> {
    if is_unreserved(c) {
        seq![c]
    } else {
        seq!['%', hex_digit((c as u32 / 16) as nat), hex_digit((c as u32 % 16) as nat)]
    }
}

/// An ASCII text, percent-encoded character by character.
pub open spec fn percent_encode_ascii(s: Seq<char>) -> Seq<char>
    decreases s.len(),
{
    if s.len() == 0 {
        Seq::empty()
    } else {
        percent_encode_ascii_char(s[0]) + percent_encode_ascii(s.drop_first())
    }
}

/// Relies on urlencoding::encode: percent-encodes every byte but ASCII
/// letters, digits and `-_.~`, with upper-case hex digits; on an ASCII text
/// each character is one byte.
#[verifier::external_body]
fn url_encode(s: &str) -> (r: String)
    ensures
        r@ == url_encoded(s@),
        (forall|i: int| 0 <= i < s@.len() ==> (#[trigger] s@[i] as u32) < 128) ==> r@
            == percent_encode_ascii(s@),
{
    urlencoding::encode(s).into_owned()
}

/// Relies on sanitize_filename::sanitize_with_options: a file name made safe
/// from the given name, under Windows rules or not.
#[verifier::external_body]
fn sanitize(s: &str, windows: bool) -> (r: String)
    ensures
        r@ == sanitized(s@, windows),
{
    sanitize_filename::sanitize_with_options(
        s,
        sanitize_filename::Options { windows, truncate: true, replacement: "" },
    )
}

/// The query of a record: its name, a space, the configured suffix.
pub open spec fn search_query(name: Seq<char>, suffix: Seq<char>) -> Seq<char> {
    name + seq![' '] + suffix
}

/// Search link of a record: the search page with the encoded query.
pub fn search_url(name: &str, suffix: &str) -> (r: String)
    ensures
        r@ == SEARCH_PREFIX@ + url_encoded(search_query(name@, suffix@)),
{
    let mut query = name.to_owned();
    proof {
        reveal_strlit(" ");
    }
    query.append(" ");
    query.append(suffix);
    assert(query@ =~= search_query(name@, suffix@));
    let encoded = url_encode(query.as_str());
    let mut url = SEARCH_PREFIX.to_owned();
    url.append(encoded.as_str());
    url
}

/// Quota of a record: its own if it has one, else the run's.
pub fn effective_quota(own: Option<usize>, run_default: Option<usize>) -> (r: Option<usize>)
    ensures
        r == (if own is Some {
            own
        } else {
            run_default
        }),
{
    match own {
        Some(q) => Some(q),
        None => run_default,
    }
}

/// Folder that the images of a target named `name` are written to, under
/// the file-name rules of Windows when `windows` holds.
pub fn folder_name(name: &str, windows: bool) -> (r: String)
    ensures
        r@ == sanitized(name@, windows),
{
    sanitize(name, windows)
}

/// Folder of a run on a single link.
pub fn single_target_folder(windows: bool) -> (r: String)
    ensures
        r@ == sanitized(SINGLE_TARGET_FOLDER@, windows),
{
    sanitize(SINGLE_TARGET_FOLDER, windows)
}

pub open spec fn digit_char(d: nat) -> char {
    seq!['0', '1', '2', '3', '4', '5', '6', '7', '8', '9'][d as int]
}

/// Decimal digits of `n`, most significant first, without leading zeros.
pub open spec fn decimal(n: nat) -> Seq<char>
    decreases n,
{
    if n < 10 {
        seq![digit_char(n)]
    } else {
        decimal(n / 10).push(digit_char(n % 10))
    }
}

/// Decimal digits of `n`, with leading zeros up to three digits.
pub open spec fn zero_padded3(n: nat) -> Seq<char> {
    if decimal(n).len() >= 3 {
        decimal(n)
    } else {
        Seq::new((3 - decimal(n).len()) as nat, |i: int| '0') + decimal(n)
    }
}

/// File name of the image at 0-based position `index` of a target's result:
/// the folder, `/`, the 1-based position with at least three digits, `.jpg`.
pub open spec fn output_file_spec(folder: Seq<char>, index: nat) -> Seq<char> {
    folder + seq!['/'] + zero_padded3(index + 1) + ".jpg"@
}

fn digit_str(d: u64) -> (r: &'static str)
    requires
        d < 10,
    ensures
        r@ == seq![digit_char(d as nat)],
{
    proof {
        reveal_strlit("0");
        reveal_strlit("1");
        reveal_strlit("2");
        reveal_strlit("3");
        reveal_strlit("4");
        reveal_strlit("5");
        reveal_strlit("6");
        reveal_strlit("7");
        reveal_strlit("8");
        reveal_strlit("9");
    }
    match d {
        0 => "0",
        1 => "1",
        2 => "2",
        3 => "3",
        4 => "4",
        5 => "5",
        6 => "6",
        7 => "7",
        8 => "8",
        _ => "9",
    }
}

fn append_decimal(out: &mut String, n: u64)
    ensures
        final(out)@ == old(out)@ + decimal(n as nat),
    decreases n,
{
    if n >= 10 {
        append_decimal(out, n / 10);
    }
    out.append(digit_str(n % 10));
    assert(out@ =~= old(out)@ + decimal(n as nat));
}

proof fn lemma_decimal_len(n: nat)
    ensures
        decimal(n).len() >= 1,
        n < 10 ==> decimal(n).len() == 1,
        10 <= n < 100 ==> decimal(n).len() == 2,
        n >= 100 ==> decimal(n).len() >= 3,
    decreases n,
{
    if n >= 10 {
        lemma_decimal_len(n / 10);
    }
}

/// File name of the image at 0-based position `index` of a target's result.
pub fn output_file_name(folder: &str, index: u64) -> (r: String)
    requires
        index < u64::MAX,
    ensures
        r@ == output_file_spec(folder@, index as nat),
{
    let n = index + 1;
    let mut name = folder.to_owned();
    proof {
        reveal_strlit("/");
        reveal_strlit("0");
        reveal_strlit("00");
        reveal_strlit(".jpg");
        lemma_decimal_len(n as nat);
    }
    name.append("/");
    let ghost before_pad = name@;
    let ghost zeros = if decimal(n as nat).len() >= 3 {
        Seq::<char>::empty()
    } else {
        Seq::new((3 - decimal(n as nat).len()) as nat, |i: int| '0')
    };
    if n < 10 {
        name.append("00");
        assert(zeros =~= seq!['0', '0']);
    } else if n < 100 {
        name.append("0");
        assert(zeros =~= seq!['0']);
    } else {
        assert(zeros =~= Seq::<char>::empty());
    }
    assert(name@ =~= before_pad + zeros);
    append_decimal(&mut name, n);
    assert(zeros + decimal(n as nat) =~= zero_padded3(n as nat));
    name.append(".jpg");
    assert(name@ =~= output_file_spec(folder@, index as nat));
    name
}

} // verus!
