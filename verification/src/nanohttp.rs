//! Minimal HTTP/1.1 response texts for the metrics endpoint.

use vstd::prelude::*;
use vstd::string::StringExecFns;

verus! {

/// The decimal digit character for a value in `0..10`.
pub open spec fn digit_char(v: int) -> char {
    if v == 0 {
        '0'
    } else if v == 1 {
        '1'
    } else if v == 2 {
        '2'
    } else if v == 3 {
        '3'
    } else if v == 4 {
        '4'
    } else if v == 5 {
        '5'
    } else if v == 6 {
        '6'
    } else if v == 7 {
        '7'
    } else if v == 8 {
        '8'
    } else {
        '9'
    }
}

/// The decimal digits of a positive number, least significant first.
pub open spec fn dec_rev(n: int) -> Seq<char>
    decreases n,
{
    if n < 10 {
        seq![digit_char(n)]
    } else {
        seq![digit_char(n % 10)] + dec_rev(n / 10)
    }
}

/// The decimal rendering of a number.
pub open spec fn dec_chars(n: int) -> Seq<char> {
    if n <= 0 {
        seq!['0']
    } else {
        dec_rev(n).reverse()
    }
}

/// Appends the decimal digit for `d` to `s`.
fn append_digit(s: &mut String, d: u64)
    requires
        d < 10,
    ensures
        final(s)@ =~= old(s)@.push(digit_char(d as int)),
{
    if d == 0 {
        s.append("0");
        proof {
            reveal_strlit("0");
        }
    } else if d == 1 {
        s.append("1");
        proof {
            reveal_strlit("1");
        }
    } else if d == 2 {
        s.append("2");
        proof {
            reveal_strlit("2");
        }
    } else if d == 3 {
        s.append("3");
        proof {
            reveal_strlit("3");
        }
    } else if d == 4 {
        s.append("4");
        proof {
            reveal_strlit("4");
        }
    } else if d == 5 {
        s.append("5");
        proof {
            reveal_strlit("5");
        }
    } else if d == 6 {
        s.append("6");
        proof {
            reveal_strlit("6");
        }
    } else if d == 7 {
        s.append("7");
        proof {
            reveal_strlit("7");
        }
    } else if d == 8 {
        s.append("8");
        proof {
            reveal_strlit("8");
        }
    } else {
        s.append("9");
        proof {
            reveal_strlit("9");
        }
    }
}

/// Appends the decimal rendering of `n` to `s`.
fn append_dec(s: &mut String, n: u64)
    ensures
        final(s)@ =~= old(s)@ + dec_chars(n as int),
{
    if n == 0 {
        s.append("0");
        proof {
            reveal_strlit("0");
            assert(s@ =~= old(s)@ + dec_chars(0));
        }
        return ;
    }
    let mut digits: Vec<u64> = Vec::new();
    let mut acc: u64 = n;
    while acc > 0
        invariant
            acc >= 0,
            forall|j: int| 0 <= j < digits@.len() ==> #[trigger] digits@[j] < 10,
            acc > 0 ==> Seq::new(digits@.len(), |j: int| digit_char(digits@[j] as int)) + dec_rev(
                acc as int,
            ) =~= dec_rev(n as int),
            acc == 0 ==> Seq::new(digits@.len(), |j: int| digit_char(digits@[j] as int)) =~= dec_rev(
                n as int,
            ),
        decreases acc,
    {
        let d = acc % 10;
        digits.push(d);
        acc = acc / 10;
        proof {
            if acc > 0 {
                assert(Seq::new(digits@.len(), |j: int| digit_char(digits@[j] as int)) + dec_rev(
                    acc as int,
                ) =~= dec_rev(n as int));
            } else {
                assert(Seq::new(digits@.len(), |j: int| digit_char(digits@[j] as int)) =~= dec_rev(
                    n as int,
                ));
            }
        }
    }
    let ghost rev = dec_rev(n as int);
    let dn = digits.len();
    let ghost pre = s@;
    let mut j: usize = 0;
    while j < dn
        invariant
            dn == digits@.len(),
            j <= dn,
            forall|t: int| 0 <= t < dn ==> #[trigger] digits@[t] < 10,
            Seq::new(digits@.len(), |t: int| digit_char(digits@[t] as int)) =~= rev,
            rev.len() == dn,
            s@ =~= pre + rev.reverse().take(j as int),
        decreases dn - j,
    {
        let d = digits[dn - 1 - j];
        append_digit(s, d);
        proof {
            assert(rev.reverse()[j as int] == rev[dn - 1 - j as int]);
            assert(s@ =~= pre + rev.reverse().take(j + 1));
        }
        j = j + 1;
    }
    proof {
        assert(rev.reverse().take(dn as int) =~= rev.reverse());
        assert(dec_chars(n as int) =~= rev.reverse());
    }
}

/// The fixed not-found response.
pub fn respond_404() -> (r: &'static str)
    ensures
        r@ == "HTTP/1.1 404 Not found\r\nContent-Type: text/plain\r\nContent-Length: 9\r\n\r\nnot found"@,
{
    "HTTP/1.1 404 Not found\r\nContent-Type: text/plain\r\nContent-Length: 9\r\n\r\nnot found"
}

/// Wraps `data` in a plain-text OK response with the right content length.
pub fn respond_200(data: String) -> (r: String)
    ensures
        r@ =~= "HTTP/1.1 200 OK\r\nContent-Type: text/plain\r\nContent-Length: "@ + dec_chars(
            vstd::utf8::encode_utf8(data@).len() as int,
        ) + "\r\n\r\n"@ + data@,
{
    let len = data.as_str().as_bytes().len();
    let mut s = String::new();
    s.append("HTTP/1.1 200 OK\r\nContent-Type: text/plain\r\nContent-Length: ");
    append_dec(&mut s, len as u64);
    s.append("\r\n\r\n");
    s.append(data.as_str());
    s
}

} // verus!
