use vstd::prelude::*;
use vstd::string::StrSliceExecFns;

use crate::error::Error;

verus! {

/// Append a slice of bytes to a vector; used by the transfer callback.
pub fn append_bytes(dst: &mut Vec<u8>, src: &[u8]) -> (r: usize)
    ensures
        final(dst)@ == old(dst)@ + src@,
        r == src@.len(),
{
    let mut i: usize = 0;
    while i < src.len()
        invariant
            0 <= i <= src@.len(),
            dst@ == old(dst)@ + src@.take(i as int),
        decreases src@.len() - i,
    {
        let b = src[i];
        dst.push(b);
        i = i + 1;
        assert(dst@ =~= old(dst)@ + src@.take(i as int));
    }
    proof {
        assert(old(dst)@ + src@.take(src@.len() as int) =~= old(dst)@ + src@);
    }
    i
}

/// Relies on `curl::easy::Easy` (`new`, `url`, `useragent`,
/// `get(true)`, `transfer` with a write callback that only calls
/// [`append_bytes`], `perform`, `response_code`): the HTTP status and
/// the response body of a blocking GET, or the transport's message.
/// The network decides the outcome, so nothing is promised of it.
#[verifier::external_body]
fn http_get_raw(url: &str, agent: &str) -> Result<(u32, Vec<u8>), String> {
    let mut easy = curl::easy::Easy::new();
    easy.url(url).map_err(|e| e.to_string())?;
    easy.useragent(agent).map_err(|e| e.to_string())?;
    easy.get(true).map_err(|e| e.to_string())?;
    let mut data = Vec::new();
    {
        let mut transfer = easy.transfer();
        transfer.write_function(|buf| Ok(append_bytes(&mut data, buf))).map_err(
            |e| e.to_string(),
        )?;
        transfer.perform().map_err(|e| e.to_string())?;
    }
    let status = easy.response_code().map_err(|e| e.to_string())?;
    Ok((status, data))
}

/// The decimal digits of a number, as a byte string.
pub open spec fn spec_decimal(n: int) -> Seq<u8>
    decreases n,
{
    if n <= 0 {
        Seq::empty()
    } else {
        spec_decimal(n / 10).push((48 + n % 10) as u8)
    }
}

/// Render a number in decimal ("0" for zero).
pub fn decimal_bytes(n: u32) -> (r: Vec<u8>)
    ensures
        n == 0 ==> r@ == seq![48u8],
        n > 0 ==> r@ == spec_decimal(n as int),
{
    if n == 0 {
        let mut r: Vec<u8> = Vec::new();
        r.push(48);
        proof {
            assert(r@ =~= seq![48u8]);
        }
        return r;
    }
    let mut digits: Vec<u8> = Vec::new();
    let mut m: u32 = n;
    while m > 0
        invariant
            0 <= m,
            spec_decimal(n as int) == spec_decimal(m as int) + digits@,
        decreases m,
    {
        let ghost before = digits@;
        let d: u8 = (m % 10) as u8;
        digits.insert(0, 48 + d);
        m = m / 10;
        proof {
            assert(digits@ =~= seq![(48 + d) as u8] + before);
            assert(spec_decimal((m * 10 + d) as int) =~= spec_decimal(m as int).push(
                (48 + d) as u8,
            ));
            assert(spec_decimal(m as int).push((48 + d) as u8) + before =~= spec_decimal(m as int)
                + (seq![(48 + d) as u8] + before));
        }
    }
    proof {
        assert(spec_decimal(0) + digits@ =~= digits@);
    }
    digits
}

/// Whether `r` is the verdict of the fetch decision on one response:
/// a status in the 2xx range yields exactly the body, anything else
/// yields the request error carrying the URL.
pub open spec fn spec_http_result(
    status: u32,
    body: Seq<u8>,
    url: Seq<char>,
    r: Result<Vec<u8>, Error>,
) -> bool {
    if 200 <= status <= 299 {
        r is Ok && r.unwrap()@ == body
    } else {
        r is Err && (r.unwrap_err() matches Error::HttpRequest(u, _) && u@ == url)
    }
}

/// Decide the outcome of one HTTP response: a 2xx status yields the
/// body, anything else the typed error carrying the URL and the
/// status.
pub fn http_response_result(status: u32, body: Vec<u8>, url: &String) -> (r: Result<
    Vec<u8>,
    Error,
>)
    ensures
        spec_http_result(status, body@, url@, r),
{
    if status < 200 || status > 299 {
        let mut msg = "Server returned status ".to_owned();
        let digits = decimal_bytes(status);
        push_digits(&mut msg, &digits);
        return Err(Error::HttpRequest(url.clone(), msg));
    }
    Ok(body)
}

/// Fetch a URL with a blocking GET: either the transport failed with
/// a [`Error::CurlError`], or the call's result is the fetch decision
/// of [`spec_http_result`] on the status and body that came back.
pub fn fetch_url(url: &String) -> (r: Result<Vec<u8>, Error>)
    ensures
        (exists|status: u32, body: Seq<u8>| #[trigger] spec_http_result(status, body, url@, r))
            || (r is Err && (r.unwrap_err() matches Error::CurlError(_))),
        r is Err ==> (r.unwrap_err() matches Error::CurlError(_) || r.unwrap_err()
            matches Error::HttpRequest(_, _)),
{
    let (status, data) = match http_get_raw(url.as_str(), "logix (libcurl)") {
        Ok(p) => p,
        Err(m) => {
            return Err(Error::CurlError(m));
        },
    };
    let ghost body = data@;
    let r = http_response_result(status, data, url);
    proof {
        assert(spec_http_result(status, body, url@, r));
    }
    r
}

/// Append decimal digit bytes to a string.
fn push_digits(dst: &mut String, digits: &Vec<u8>)
{
    let mut i: usize = 0;
    while i < digits.len()
        decreases digits@.len() - i,
    {
        let b = digits[i];
        let d: &str = if b == 48 {
            "0"
        } else if b == 49 {
            "1"
        } else if b == 50 {
            "2"
        } else if b == 51 {
            "3"
        } else if b == 52 {
            "4"
        } else if b == 53 {
            "5"
        } else if b == 54 {
            "6"
        } else if b == 55 {
            "7"
        } else if b == 56 {
            "8"
        } else {
            "9"
        };
        dst.append(d);
        i = i + 1;
    }
}

} // verus!
