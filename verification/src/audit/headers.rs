//! The client address and user agent of a request, read from its headers
//! behind Cloudflare, FRP and other proxies.
use vstd::prelude::*;
use crate::monitor::model::{opt_view, copy_opt};
use crate::text::{
    all_ws, chars_of, is_ws, occurs_at, split_chars, split_on, string_of, sub_chars, text_at, texts,
    trim_bounds, trim_spec,
};
use crate::audit::query::AuditRequestContext;

verus! {

/// Request headers by name (lowercase) in their order; a value is `None`
/// where it is not visible ASCII text.
pub type HeaderList = Vec<(String, Option<String>)>;

/// The model of a header list.
pub open spec fn headers_view(h: Seq<(String, Option<String>)>) -> Seq<(Seq<char>, Option<Seq<char>>)> {
    h.map_values(|e: (String, Option<String>)| (e.0@, opt_view(e.1)))
}

/// The first value given for `name`: absent, unreadable (`Some(None)`) or
/// its text.
pub open spec fn first_value(h: Seq<(Seq<char>, Option<Seq<char>>)>, name: Seq<char>) -> Option<
    Option<Seq<char>>,
>
    decreases h.len(),
{
    if h.len() == 0 {
        None
    } else if h[0].0 == name {
        Some(h[0].1)
    } else {
        first_value(h.drop_first(), name)
    }
}

/// A header's text, trimmed; `None` when it is absent, unreadable or blank.
pub open spec fn header_text_spec(h: Seq<(Seq<char>, Option<Seq<char>>)>, name: Seq<char>) -> Option<
    Seq<char>,
> {
    match first_value(h, name) {
        Some(Some(v)) => if all_ws(v) {
            None
        } else {
            Some(trim_spec(v))
        },
        _ => None,
    }
}

/// Reads a header as trimmed, non-blank text.
pub fn header_text(headers: &HeaderList, name: &str) -> (r: Option<String>)
    ensures
        opt_view(r) == header_text_spec(headers_view(headers@), name@),
{
    let ghost hv = headers_view(headers@);
    let mut i: usize = 0;
    assert(hv.subrange(0, hv.len() as int) =~= hv);
    while i < headers.len()
        invariant
            i <= headers@.len(),
            hv == headers_view(headers@),
            first_value(hv, name@) == first_value(hv.subrange(i as int, hv.len() as int), name@),
        decreases headers.len() - i,
    {
        let ghost rest = hv.subrange(i as int, hv.len() as int);
        assert(rest[0] == (headers@[i as int].0@, opt_view(headers@[i as int].1)));
        assert(rest.drop_first() =~= hv.subrange(i + 1, hv.len() as int));
        if crate::text::same_text(headers[i].0.as_str(), name) {
            return match &headers[i].1 {
                Some(v) => {
                    if crate::text::is_blank(v.as_str()) {
                        None
                    } else {
                        Some(crate::text::trim_str(v.as_str()))
                    }
                },
                None => None,
            };
        }
        i = i + 1;
    }
    assert(hv.subrange(i as int, hv.len() as int).len() == 0);
    None
}

/// `s` without the double quotes at its start.
pub open spec fn strip_quotes_start(s: Seq<char>) -> Seq<char>
    decreases s.len(),
{
    if s.len() > 0 && s[0] == '"' {
        strip_quotes_start(s.drop_first())
    } else {
        s
    }
}

/// `s` without the double quotes at its end.
pub open spec fn strip_quotes_end(s: Seq<char>) -> Seq<char>
    decreases s.len(),
{
    if s.len() > 0 && s.last() == '"' {
        strip_quotes_end(s.drop_last())
    } else {
        s
    }
}

/// Position of the first `c` in `s` from `i`.
pub open spec fn first_index(s: Seq<char>, c: char, i: int) -> Option<int>
    decreases s.len() - i,
{
    if i < 0 || i >= s.len() {
        None
    } else if s[i] == c {
        Some(i)
    } else {
        first_index(s, c, i + 1)
    }
}

/// Position of the last `c` in `s[..n]`.
pub open spec fn last_index(s: Seq<char>, c: char, n: int) -> Option<int>
    decreases n,
{
    if n <= 0 || n > s.len() {
        None
    } else if s[n - 1] == c {
        Some(n - 1)
    } else {
        last_index(s, c, n - 1)
    }
}

/// An ASCII decimal digit.
pub open spec fn ascii_digit(c: char) -> bool {
    '0' <= c <= '9'
}

/// A forwarded address without port, brackets and quotes: `[v6]:port`
/// gives the IPv6 address; `v4:port` the IPv4 address; a bare IPv6 address
/// is kept whole.
pub open spec fn normalized_address(value: Seq<char>) -> Seq<char> {
    let v = strip_quotes_end(strip_quotes_start(trim_spec(value)));
    let rest = v.drop_first();
    if v.len() > 0 && v[0] == '[' && first_index(rest, ']', 0) is Some {
        rest.subrange(0, first_index(rest, ']', 0).unwrap())
    } else {
        match last_index(v, ':', v.len() as int) {
            None => v,
            Some(k) => {
                let prefix = v.subrange(0, k);
                let suffix = v.subrange(k + 1, v.len() as int);
                if last_index(prefix, ':', prefix.len() as int) is None && (forall|j: int|
                    0 <= j < suffix.len() ==> ascii_digit(#[trigger] suffix[j])) {
                    prefix
                } else {
                    v
                }
            },
        }
    }
}

fn first_index_exec(s: &Vec<char>, c: char, i: usize) -> (r: Option<usize>)
    requires
        i <= s@.len(),
    ensures
        match first_index(s@, c, i as int) {
            Some(k) => r == Some(k as usize) && i <= k < s@.len(),
            None => r is None,
        },
{
    let mut k = i;
    while k < s.len()
        invariant
            i <= k <= s@.len(),
            first_index(s@, c, i as int) == first_index(s@, c, k as int),
        decreases s.len() - k,
    {
        if s[k] == c {
            return Some(k);
        }
        k = k + 1;
    }
    None
}

fn last_index_exec(s: &Vec<char>, c: char) -> (r: Option<usize>)
    ensures
        match last_index(s@, c, s@.len() as int) {
            Some(k) => r == Some(k as usize) && 0 <= k < s@.len(),
            None => r is None,
        },
{
    let mut n = s.len();
    while n > 0
        invariant
            n <= s@.len(),
            last_index(s@, c, s@.len() as int) == last_index(s@, c, n as int),
        decreases n,
    {
        if s[n - 1] == c {
            return Some(n - 1);
        }
        n = n - 1;
    }
    None
}

/// Strips the quotes around a trimmed value.
fn strip_quotes(v: &Vec<char>) -> (r: Vec<char>)
    ensures
        r@ == strip_quotes_end(strip_quotes_start(v@)),
{
    let mut a: usize = 0;
    assert(v@.subrange(0, v@.len() as int) =~= v@);
    while a < v.len() && v[a] == '"'
        invariant
            a <= v@.len(),
            strip_quotes_start(v@) == strip_quotes_start(v@.subrange(a as int, v@.len() as int)),
        decreases v.len() - a,
    {
        assert(v@.subrange(a as int, v@.len() as int).drop_first() =~= v@.subrange(
            a + 1,
            v@.len() as int,
        ));
        a = a + 1;
    }
    let ghost t = v@.subrange(a as int, v@.len() as int);
    assert(strip_quotes_start(t) == t);
    let mut b: usize = v.len();
    while b > a && v[b - 1] == '"'
        invariant
            a <= b <= v@.len(),
            t == v@.subrange(a as int, v@.len() as int),
            strip_quotes_end(t) == strip_quotes_end(v@.subrange(a as int, b as int)),
        decreases b,
    {
        assert(v@.subrange(a as int, b as int).drop_last() =~= v@.subrange(a as int, b - 1));
        b = b - 1;
    }
    let r = sub_chars(v.as_slice(), a, b);
    let ghost u = v@.subrange(a as int, b as int);
    assert(strip_quotes_end(u) == u);
    r
}

/// Removes the port, brackets and quotes from a forwarded client address.
pub fn normalize_forwarded_value(value: &str) -> (r: String)
    ensures
        r@ == normalized_address(value@),
{
    let raw = chars_of(value);
    let (a, b) = trim_bounds(raw.as_slice());
    let trimmed = sub_chars(raw.as_slice(), a, b);
    let v = strip_quotes(&trimmed);
    if v.len() > 0 && v[0] == '[' {
        let after = sub_chars(v.as_slice(), 1, v.len());
        assert(after@ =~= v@.drop_first());
        match first_index_exec(&after, ']', 0) {
            Some(end) => {
                return string_of(sub_chars(after.as_slice(), 0, end).as_slice());
            },
            None => {},
        }
    }
    match last_index_exec(&v, ':') {
        None => string_of(v.as_slice()),
        Some(k) => {
            let prefix = sub_chars(v.as_slice(), 0, k);
            let suffix = sub_chars(v.as_slice(), k + 1, v.len());
            let mut digits = true;
            let mut j: usize = 0;
            while j < suffix.len()
                invariant
                    j <= suffix@.len(),
                    digits == (forall|m: int| 0 <= m < j ==> ascii_digit(#[trigger] suffix@[m])),
                decreases suffix.len() - j,
            {
                let c = suffix[j];
                if !('0' <= c && c <= '9') {
                    digits = false;
                }
                j = j + 1;
            }
            if last_index_exec(&prefix, ':').is_none() && digits {
                string_of(prefix.as_slice())
            } else {
                string_of(v.as_slice())
            }
        },
    }
}

/// The position of the last piece that is not blank.
pub open spec fn last_nonblank(p: Seq<Seq<char>>, n: int) -> Option<int>
    decreases n,
{
    if n <= 0 || n > p.len() {
        None
    } else if !all_ws(p[n - 1]) {
        Some(n - 1)
    } else {
        last_nonblank(p, n - 1)
    }
}

fn last_nonblank_exec(p: &Vec<Vec<char>>) -> (r: Option<usize>)
    ensures
        match last_nonblank(texts(p@), p@.len() as int) {
            Some(k) => r == Some(k as usize) && 0 <= k < p@.len(),
            None => r is None,
        },
{
    let mut n = p.len();
    while n > 0
        invariant
            n <= p@.len(),
            last_nonblank(texts(p@), p@.len() as int) == last_nonblank(texts(p@), n as int),
        decreases n,
    {
        assert(texts(p@)[n - 1] == p@[n - 1]@);
        let (a, b) = trim_bounds(p[n - 1].as_slice());
        if a != b {
            return Some(n - 1);
        }
        n = n - 1;
    }
    None
}

/// The address from the rightmost non-blank element of a comma-separated
/// list, which is where an appending proxy such as FRP puts the peer.
pub open spec fn rightmost_address(v: Seq<char>) -> Option<Seq<char>> {
    let parts = split_on(v, ',');
    match last_nonblank(parts, parts.len() as int) {
        Some(k) => Some(normalized_address(parts[k])),
        None => None,
    }
}

fn rightmost_address_exec(v: &str) -> (r: Option<String>)
    ensures
        opt_view(r) == rightmost_address(v@),
{
    let c = chars_of(v);
    let parts = split_chars(c.as_slice(), ',');
    match last_nonblank_exec(&parts) {
        Some(k) => {
            assert(texts(parts@)[k as int] == parts@[k as int]@);
            let s = string_of(parts[k].as_slice());
            Some(normalize_forwarded_value(s.as_str()))
        },
        None => None,
    }
}

/// ASCII case folding of one character.
pub open spec fn ascii_lower(c: char) -> char {
    if 'A' <= c <= 'Z' {
        ((c as u32) + 32) as char
    } else {
        c
    }
}

/// `k` is `for` in any ASCII case.
pub open spec fn is_for_key(k: Seq<char>) -> bool {
    k.len() == 3 && ascii_lower(k[0]) == 'f' && ascii_lower(k[1]) == 'o' && ascii_lower(k[2]) == 'r'
}

/// The `for=` value of one `;`-separated element, if it is one.
pub open spec fn for_value(item: Seq<char>) -> Option<Seq<char>> {
    let t = trim_spec(item);
    match first_index(t, '=', 0) {
        Some(e) => if is_for_key(t.subrange(0, e)) {
            Some(t.subrange(e + 1, t.len() as int))
        } else {
            None
        },
        None => None,
    }
}

/// The first `for=` value among `items[i..]`.
pub open spec fn first_for(items: Seq<Seq<char>>, i: int) -> Option<Seq<char>>
    decreases items.len() - i,
{
    if i < 0 || i >= items.len() {
        None
    } else {
        match for_value(items[i]) {
            Some(v) => Some(v),
            None => first_for(items, i + 1),
        }
    }
}

/// The client address of an RFC 7239 `Forwarded` header: the `for=` value
/// of the last proxy element.
pub open spec fn forwarded_for(v: Seq<char>) -> Option<Seq<char>> {
    let parts = split_on(v, ',');
    match last_nonblank(parts, parts.len() as int) {
        Some(k) => match first_for(split_on(parts[k], ';'), 0) {
            Some(a) => Some(normalized_address(a)),
            None => None,
        },
        None => None,
    }
}

fn lower_ascii(c: char) -> (r: char)
    ensures
        r == ascii_lower(c),
{
    if 'A' <= c && c <= 'Z' {
        ((c as u32) + 32) as u8 as char
    } else {
        c
    }
}

fn for_value_exec(item: &Vec<char>) -> (r: Option<Vec<char>>)
    ensures
        match for_value(item@) {
            Some(v) => r matches Some(x) && x@ == v,
            None => r is None,
        },
{
    let (a, b) = trim_bounds(item.as_slice());
    let t = sub_chars(item.as_slice(), a, b);
    match first_index_exec(&t, '=', 0) {
        Some(e) => {
            if e == 3 && lower_ascii(t[0]) == 'f' && lower_ascii(t[1]) == 'o' && lower_ascii(t[2])
                == 'r' {
                Some(sub_chars(t.as_slice(), e + 1, t.len()))
            } else {
                None
            }
        },
        None => None,
    }
}

fn forwarded_for_exec(v: &str) -> (r: Option<String>)
    ensures
        opt_view(r) == forwarded_for(v@),
{
    let c = chars_of(v);
    let parts = split_chars(c.as_slice(), ',');
    let k = match last_nonblank_exec(&parts) {
        Some(k) => k,
        None => {
            return None;
        },
    };
    assert(texts(parts@)[k as int] == parts@[k as int]@);
    let items = split_chars(parts[k].as_slice(), ';');
    let mut i: usize = 0;
    while i < items.len()
        invariant
            i <= items@.len(),
            texts(items@) == split_on(parts@[k as int]@, ';'),
            texts(parts@) == split_on(v@, ','),
            c@ == v@,
            0 <= k < parts@.len(),
            last_nonblank(texts(parts@), parts@.len() as int) == Some(k as int),
            texts(parts@)[k as int] == parts@[k as int]@,
            first_for(texts(items@), 0) == first_for(texts(items@), i as int),
        decreases items.len() - i,
    {
        assert(texts(items@)[i as int] == items@[i as int]@);
        match for_value_exec(&items[i]) {
            Some(a) => {
                let s = string_of(a.as_slice());
                return Some(normalize_forwarded_value(s.as_str()));
            },
            None => {},
        }
        i = i + 1;
    }
    None
}

/// The client address from the generic forwarding headers: the rightmost
/// `X-Forwarded-For` element, else the `Forwarded` header's `for=`, else
/// `X-Real-IP`.
pub open spec fn forwarded_header_address(h: Seq<(Seq<char>, Option<Seq<char>>)>) -> Option<Seq<char>> {
    let xff = match header_text_spec(h, "x-forwarded-for"@) {
        Some(v) => rightmost_address(v),
        None => None,
    };
    let fwd = match header_text_spec(h, "forwarded"@) {
        Some(v) => forwarded_for(v),
        None => None,
    };
    if xff is Some {
        xff
    } else if fwd is Some {
        fwd
    } else {
        match header_text_spec(h, "x-real-ip"@) {
            Some(v) => Some(normalized_address(v)),
            None => None,
        }
    }
}

fn forwarded_header_ip(headers: &HeaderList) -> (r: Option<String>)
    ensures
        opt_view(r) == forwarded_header_address(headers_view(headers@)),
{
    if let Some(v) = header_text(headers, "x-forwarded-for") {
        if let Some(a) = rightmost_address_exec(v.as_str()) {
            return Some(a);
        }
    }
    if let Some(v) = header_text(headers, "forwarded") {
        if let Some(a) = forwarded_for_exec(v.as_str()) {
            return Some(a);
        }
    }
    match header_text(headers, "x-real-ip") {
        Some(v) => Some(normalize_forwarded_value(v.as_str())),
        None => None,
    }
}

/// Some header name begins with `cf-`: the request came through Cloudflare.
pub open spec fn via_cloudflare(h: Seq<(Seq<char>, Option<Seq<char>>)>) -> bool {
    exists|i: int| 0 <= i < h.len() && occurs_at(#[trigger] h[i].0, 0, "cf-"@)
}

/// The client address of a request: behind Cloudflare its
/// `CF-Connecting-IP` first; otherwise, or without it, the generic
/// forwarding headers.
pub open spec fn client_address(h: Seq<(Seq<char>, Option<Seq<char>>)>) -> Option<Seq<char>> {
    if via_cloudflare(h) && header_text_spec(h, "cf-connecting-ip"@) is Some {
        Some(normalized_address(header_text_spec(h, "cf-connecting-ip"@).unwrap()))
    } else {
        forwarded_header_address(h)
    }
}

/// Reads the client address of a request from its headers.
pub fn client_ip_from_headers(headers: &HeaderList) -> (r: Option<String>)
    ensures
        opt_view(r) == client_address(headers_view(headers@)),
{
    let ghost hv = headers_view(headers@);
    let mut cf = false;
    let mut i: usize = 0;
    while i < headers.len()
        invariant
            i <= headers@.len(),
            hv == headers_view(headers@),
            cf == (exists|j: int| 0 <= j < i && occurs_at(#[trigger] hv[j].0, 0, "cf-"@)),
        decreases headers.len() - i,
    {
        let name = chars_of(headers[i].0.as_str());
        assert(hv[i as int].0 == headers@[i as int].0@);
        if text_at(name.as_slice(), 0, "cf-") {
            cf = true;
        }
        i = i + 1;
    }
    if cf {
        if let Some(v) = header_text(headers, "cf-connecting-ip") {
            return Some(normalize_forwarded_value(v.as_str()));
        }
    }
    forwarded_header_ip(headers)
}

/// The audit context of a request: its protocol fields, and the client
/// address and user agent from its headers. No audit id is made here.
pub fn request_context_from_headers(
    headers: &HeaderList,
    transport: String,
    method: Option<String>,
    request_id: Option<String>,
    route: Option<String>,
) -> (r: AuditRequestContext)
    ensures
        r.transport@ == transport@,
        opt_view(r.method) == opt_view(method),
        opt_view(r.request_id) == opt_view(request_id),
        opt_view(r.route) == opt_view(route),
        opt_view(r.forwarded_ip) == client_address(headers_view(headers@)),
        opt_view(r.user_agent) == header_text_spec(headers_view(headers@), "user-agent"@),
{
    AuditRequestContext {
        transport,
        method,
        request_id,
        route,
        forwarded_ip: client_ip_from_headers(headers),
        user_agent: header_text(headers, "user-agent"),
    }
}

} // verus!
