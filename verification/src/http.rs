//! The decisions of the little web server: which status line and file a
//! request maps to, and how the response text is assembled, including the
//! decimal content length.

use vstd::prelude::*;
use vstd::string::StrSliceExecFns;
use vstd::string::StringExecFns;
use vstd::string::StringSliceAdditionalSpecFns;

verus! {

/// Whether `p` is a prefix of `s`.
pub open spec fn prefix_of(p: Seq<char>, s: Seq<char>) -> bool {
    p.len() <= s.len() && s.take(p.len() as int) == p
}

/// Whether the characters of `p` open the string `s`.
pub fn str_starts_with(s: &str, p: &str) -> (r: bool)
    ensures
        r == prefix_of(p@, s@),
{
    let n = s.unicode_len();
    let m = p.unicode_len();
    if m > n {
        proof {
            assert(!prefix_of(p@, s@));
        }
        return false;
    }
    let mut i: usize = 0;
    while i < m
        invariant
            n == s@.len(),
            m == p@.len(),
            m <= n,
            i <= m,
            forall|k: int| 0 <= k < i ==> s@[k] == p@[k],
        decreases m - i,
    {
        if s.get_char(i) != p.get_char(i) {
            proof {
                assert(s@.take(p@.len() as int)[i as int] == s@[i as int]);
            }
            return false;
        }
        i = i + 1;
    }
    proof {
        assert(s@.take(p@.len() as int) =~= p@);
    }
    true
}

/// The status line, the file to serve, and whether the handler pauses
/// first, decided from the request text alone: the root path is served
/// the greeting page, the sleep path the same page after a pause, and
/// everything else the not-found page.
pub fn route(request: &str) -> (r: (&'static str, &'static str, bool))
    ensures
        prefix_of("GET / HTTP/1.1\r\n"@, request@) ==> (r.0@ == "HTTP/1.1 200 OK"@ && r.1@
            == "html/hello.html"@ && r.2 == false),
        !prefix_of("GET / HTTP/1.1\r\n"@, request@) && prefix_of(
            "GET /sleep HTTP/1.1\r\n"@,
            request@,
        ) ==> (r.0@ == "HTTP/1.1 200 OK"@ && r.1@ == "html/hello.html"@ && r.2 == true),
        !prefix_of("GET / HTTP/1.1\r\n"@, request@) && !prefix_of(
            "GET /sleep HTTP/1.1\r\n"@,
            request@,
        ) ==> (r.0@ == "HTTP/1.1 404 NOT FOUND"@ && r.1@ == "html/404.html"@ && r.2 == false),
{
    if str_starts_with(request, "GET / HTTP/1.1\r\n") {
        ("HTTP/1.1 200 OK", "html/hello.html", false)
    } else if str_starts_with(request, "GET /sleep HTTP/1.1\r\n") {
        ("HTTP/1.1 200 OK", "html/hello.html", true)
    } else {
        ("HTTP/1.1 404 NOT FOUND", "html/404.html", false)
    }
}

/// The character standing for the decimal digit `d`.
pub open spec fn digit_char(d: nat) -> char
    recommends
        d < 10,
{
    ((48 + d) as u8) as char
}

/// The decimal numeral of `n`, most significant digit first, without
/// leading zeros (zero itself is a single digit).
pub open spec fn decimal_digits(n: nat) -> Seq<char>
    decreases n,
{
    if n < 10 {
        seq![digit_char(n)]
    } else {
        decimal_digits(n / 10).push(digit_char(n % 10))
    }
}

/// The decimal numeral of `n`.
pub fn format_usize(n: usize) -> (r: String)
    ensures
        r@ == decimal_digits(n as nat),
{
    let mut digits: Vec<char> = Vec::new();
    let mut x = n;
    proof {
        assert(digits@.reverse() =~= Seq::<char>::empty());
    }
    while x >= 10
        invariant
            decimal_digits(n as nat) =~= decimal_digits(x as nat) + digits@.reverse(),
        decreases x,
    {
        let d: u8 = 48 + (x % 10) as u8;
        digits.push(d as char);
        proof {
            let ghost prev = digits@.drop_last();
            assert(digits@.reverse() =~= seq![digits@.last()] + prev.reverse());
            assert(digits@.last() == digit_char((x % 10) as nat));
        }
        x = x / 10;
    }
    let d: u8 = 48 + (x % 10) as u8;
    digits.push(d as char);
    proof {
        let ghost prev = digits@.drop_last();
        assert(digits@.reverse() =~= seq![digits@.last()] + prev.reverse());
        assert(digits@.last() == digit_char(x as nat));
        assert(decimal_digits(x as nat) =~= seq![digit_char(x as nat)]);
        assert(decimal_digits(n as nat) =~= digits@.reverse());
    }
    let mut out: Vec<char> = Vec::new();
    let mut i = digits.len();
    while i > 0
        invariant
            i <= digits@.len(),
            out@ =~= digits@.reverse().take((digits@.len() - i) as int),
        decreases i,
    {
        i = i - 1;
        out.push(digits[i]);
        proof {
            let ghost k = digits@.len() - i - 1;
            assert(digits@.reverse()[k] == digits@[i as int]);
            assert(digits@.reverse().take(k + 1) =~= digits@.reverse().take(k).push(
                digits@.reverse()[k],
            ));
        }
    }
    proof {
        assert(digits@.reverse().take(digits@.len() as int) =~= digits@.reverse());
    }
    crate::text::string_from_chars(&out)
}

/// The full response text: the status line, a content-length header for
/// the byte length of `contents`, a blank line, and the contents.
pub fn build_response(status_line: &str, contents: &str) -> (r: String)
    requires
        contents.spec_bytes().len() <= usize::MAX,
    ensures
        r@ == status_line@ + "\r\nContent-Length: "@ + decimal_digits(
            contents.spec_bytes().len(),
        ) + "\r\n\r\n"@ + contents@,
{
    let mut out = String::new();
    out.append(status_line);
    out.append("\r\nContent-Length: ");
    let len_text = format_usize(contents.len());
    out.append(len_text.as_str());
    out.append("\r\n\r\n");
    out.append(contents);
    out
}

} // verus!
