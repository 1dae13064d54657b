//! Header lists and header hygiene of responses: hop-by-hop removal,
//! `X-Forwarded-*` and the standard headers.

use vstd::prelude::*;
use crate::text::chars_of;

verus! {

/// A header list as name/value character sequences, in order.
pub open spec fn headers_view(h: Seq<(String, String)>) -> Seq<(Seq<char>, Seq<char>)> {
    h.map_values(|e: (String, String)| (e.0@, e.1@))
}

/// `c` with ASCII upper case folded to lower case.
pub open spec fn ascii_lower(c: char) -> char {
    if 'A' <= c && c <= 'Z' {
        ((c as u8) + 32) as char
    } else {
        c
    }
}

/// Header names compare without regard to ASCII case.
pub open spec fn same_name(a: Seq<char>, b: Seq<char>) -> bool {
    a.len() == b.len() && forall|i: int| 0 <= i < a.len() ==> ascii_lower(a[i]) == ascii_lower(b[i])
}

fn ascii_lower_exec(c: char) -> (r: char)
    ensures
        r == ascii_lower(c),
{
    if 'A' <= c && c <= 'Z' {
        ((c as u8) + 32) as char
    } else {
        c
    }
}

pub fn same_name_exec(a: &str, b: &str) -> (r: bool)
    ensures
        r == same_name(a@, b@),
{
    let x = chars_of(a);
    let y = chars_of(b);
    if x.len() != y.len() {
        return false;
    }
    let mut i: usize = 0;
    while i < x.len()
        invariant
            x@ == a@,
            y@ == b@,
            x@.len() == y@.len(),
            i <= x@.len(),
            forall|k: int| 0 <= k < i ==> ascii_lower(x@[k]) == ascii_lower(y@[k]),
        decreases x@.len() - i,
    {
        if ascii_lower_exec(x[i]) != ascii_lower_exec(y[i]) {
            proof {
                assert(ascii_lower(a@[i as int]) != ascii_lower(b@[i as int]));
            }
            return false;
        }
        i += 1;
    }
    true
}

/// `h` without the headers named `name`.
pub open spec fn without(h: Seq<(Seq<char>, Seq<char>)>, name: Seq<char>) -> Seq<(Seq<char>, Seq<char>)> {
    h.filter(|e: (Seq<char>, Seq<char>)| !same_name(e.0, name))
}

/// The value of the first header named `name`.
pub open spec fn first_value(h: Seq<(Seq<char>, Seq<char>)>, name: Seq<char>) -> Option<Seq<char>>
    decreases h.len(),
{
    if h.len() == 0 {
        None
    } else {
        match first_value(h.drop_last(), name) {
            Some(v) => Some(v),
            None => if same_name(h.last().0, name) {
                Some(h.last().1)
            } else {
                None
            },
        }
    }
}

/// A value found in a prefix of the list is the first one of the list.
proof fn lemma_first_value_prefix(h: Seq<(Seq<char>, Seq<char>)>, k: int, name: Seq<char>)
    requires
        0 <= k <= h.len(),
        first_value(h.subrange(0, k), name) is Some,
    ensures
        first_value(h, name) == first_value(h.subrange(0, k), name),
    decreases h.len(),
{
    if k == h.len() {
        assert(h.subrange(0, k) =~= h);
    } else {
        assert(h.drop_last().subrange(0, k) =~= h.subrange(0, k));
        lemma_first_value_prefix(h.drop_last(), k, name);
    }
}

/// `h` with `name` set to `value` alone (appended at the end).
pub open spec fn with_header(h: Seq<(Seq<char>, Seq<char>)>, name: Seq<char>, value: Seq<char>) -> Seq<
    (Seq<char>, Seq<char>),
> {
    without(h, name).push((name, value))
}

/// Removes every header named `name`.
pub fn remove_header(h: &mut Vec<(String, String)>, name: &str)
    ensures
        headers_view(final(h)@) == without(headers_view(old(h)@), name@),
{
    let ghost src = headers_view(h@);
    let mut out: Vec<(String, String)> = Vec::new();
    let mut i: usize = 0;
    proof {
        reveal(Seq::filter);
        assert(src.subrange(0, 0) =~= Seq::<(Seq<char>, Seq<char>)>::empty());
    }
    while i < h.len()
        invariant
            i <= h@.len(),
            src == headers_view(h@),
            headers_view(out@) == without(src.subrange(0, i as int), name@),
        decreases h@.len() - i,
    {
        proof {
            assert(src.subrange(0, i + 1).drop_last() =~= src.subrange(0, i as int));
        }
        if !same_name_exec(h[i].0.as_str(), name) {
            out.push((h[i].0.clone(), h[i].1.clone()));
        }
        proof {
            reveal(Seq::filter);
            assert(headers_view(out@) =~= without(src.subrange(0, i + 1), name@));
        }
        i += 1;
    }
    proof {
        assert(src.subrange(0, h@.len() as int) =~= src);
    }
    *h = out;
}

/// The value of the first header named `name`.
pub fn get_header(h: &Vec<(String, String)>, name: &str) -> (r: Option<String>)
    ensures
        match r {
            Some(v) => first_value(headers_view(h@), name@) == Some(v@),
            None => first_value(headers_view(h@), name@) is None,
        },
{
    let ghost hv = headers_view(h@);
    let mut i: usize = 0;
    proof {
        assert(hv.subrange(0, 0) =~= Seq::<(Seq<char>, Seq<char>)>::empty());
    }
    while i < h.len()
        invariant
            i <= h@.len(),
            hv == headers_view(h@),
            first_value(hv.subrange(0, i as int), name@) is None,
        decreases h@.len() - i,
    {
        proof {
            assert(hv.subrange(0, i + 1).drop_last() =~= hv.subrange(0, i as int));
        }
        if same_name_exec(h[i].0.as_str(), name) {
            proof {
                lemma_first_value_prefix(hv, i + 1, name@);
            }
            return Some(h[i].1.clone());
        }
        i += 1;
    }
    proof {
        assert(hv.subrange(0, i as int) =~= hv);
    }
    None
}

/// Sets `name` to `value` alone.
pub fn set_header(h: &mut Vec<(String, String)>, name: &str, value: String)
    ensures
        headers_view(final(h)@) == with_header(headers_view(old(h)@), name@, value@),
{
    remove_header(h, name);
    h.push((String::from_str(name), value));
    proof {
        assert(headers_view(h@) =~= with_header(headers_view(old(h)@), name@, value@));
    }
}

/// The hop-by-hop headers a proxy strips from a response; `Connection`
/// and `Upgrade` too unless the response is a WebSocket upgrade.
pub open spec fn hop_by_hop_spec(is_websocket_upgrade: bool) -> Seq<Seq<char>> {
    let base = seq![
        "Keep-Alive"@,
        "Proxy-Authenticate"@,
        "Proxy-Authorization"@,
        "TE"@,
        "Trailers"@,
        "Transfer-Encoding"@,
    ];
    if is_websocket_upgrade {
        base
    } else {
        base + seq!["Connection"@, "Upgrade"@]
    }
}

/// The hop-by-hop headers removed before a response is forwarded;
/// `Connection` and `Upgrade` are kept on a WebSocket upgrade.
pub fn get_list_of_hop_by_hop_headers(is_websocket_upgrade: bool) -> (r: Vec<String>)
    ensures
        crate::round_robin::strings_view(r@) == hop_by_hop_spec(is_websocket_upgrade),
{
    let mut v: Vec<String> = Vec::new();
    v.push(String::from_str("Keep-Alive"));
    v.push(String::from_str("Proxy-Authenticate"));
    v.push(String::from_str("Proxy-Authorization"));
    v.push(String::from_str("TE"));
    v.push(String::from_str("Trailers"));
    v.push(String::from_str("Transfer-Encoding"));
    if !is_websocket_upgrade {
        v.push(String::from_str("Connection"));
        v.push(String::from_str("Upgrade"));
    }
    proof {
        assert(crate::round_robin::strings_view(v@) =~= hop_by_hop_spec(is_websocket_upgrade));
    }
    v
}

/// The headers every response carries unless already set.
pub fn get_standard_headers() -> (r: Vec<(String, String)>)
    ensures
        headers_view(r@) == seq![("Vary"@, "Accept-Encoding"@)],
{
    let mut v: Vec<(String, String)> = Vec::new();
    v.push((String::from_str("Vary"), String::from_str("Accept-Encoding")));
    proof {
        assert(headers_view(v@) =~= seq![("Vary"@, "Accept-Encoding"@)]);
    }
    v
}

/// `h` without each of `names`, in turn.
pub open spec fn without_all(h: Seq<(Seq<char>, Seq<char>)>, names: Seq<Seq<char>>) -> Seq<(Seq<char>, Seq<char>)>
    decreases names.len(),
{
    if names.len() == 0 {
        h
    } else {
        without_all(without(h, names[0]), names.drop_first())
    }
}

/// The `X-Forwarded-For` value after appending `remote_ip`.
pub open spec fn forwarded_for(existing: Option<Seq<char>>, remote_ip: Seq<char>) -> Seq<char> {
    match existing {
        Some(e) => if e.len() == 0 {
            remote_ip
        } else {
            e + ", "@ + remote_ip
        },
        None => remote_ip,
    }
}

/// Sets `name` to `value` unless it already has a non-empty value.
pub open spec fn set_if_missing(h: Seq<(Seq<char>, Seq<char>)>, name: Seq<char>, value: Seq<char>) -> Seq<(Seq<char>, Seq<char>)> {
    match first_value(h, name) {
        Some(v) => if v.len() == 0 {
            with_header(h, name, value)
        } else {
            h
        },
        None => with_header(h, name, value),
    }
}

/// The response headers after the proxy's clean-up: hop-by-hop headers
/// removed, the client address appended to `X-Forwarded-For`, and
/// `X-Forwarded-Host` / `X-Forwarded-Proto` filled in when missing.
pub open spec fn cleaned_headers(
    h: Seq<(Seq<char>, Seq<char>)>,
    remote_ip: Option<Seq<char>>,
    hostname: Seq<char>,
    scheme: Seq<char>,
    is_websocket_upgrade: bool,
) -> Seq<(Seq<char>, Seq<char>)> {
    let h1 = without_all(h, hop_by_hop_spec(is_websocket_upgrade));
    let h2 = match remote_ip {
        Some(ip) => with_header(h1, "X-Forwarded-For"@, forwarded_for(first_value(h1, "X-Forwarded-For"@), ip)),
        None => h1,
    };
    let h3 = set_if_missing(h2, "X-Forwarded-Host"@, hostname);
    set_if_missing(h3, "X-Forwarded-Proto"@, scheme)
}

fn set_header_if_missing(h: &mut Vec<(String, String)>, name: &str, value: &str)
    ensures
        headers_view(final(h)@) == set_if_missing(headers_view(old(h)@), name@, value@),
{
    match get_header(h, name) {
        Some(v) => {
            if v.unicode_len() == 0 {
                set_header(h, name, String::from_str(value));
            }
        },
        None => set_header(h, name, String::from_str(value)),
    }
}

/// Cleans the headers of a proxied response (see `cleaned_headers`).
pub fn clean_update_response_headers(
    headers: &mut Vec<(String, String)>,
    remote_ip: Option<&str>,
    hostname: &str,
    scheme: &str,
    is_websocket_upgrade: bool,
)
    ensures
        headers_view(final(headers)@) == cleaned_headers(
            headers_view(old(headers)@),
            match remote_ip {
                Some(ip) => Some(ip@),
                None => None,
            },
            hostname@,
            scheme@,
            is_websocket_upgrade,
        ),
{
    let ghost names = hop_by_hop_spec(is_websocket_upgrade);
    let ghost start = headers_view(headers@);
    let mut list: Vec<&str> = Vec::new();
    list.push("Keep-Alive");
    list.push("Proxy-Authenticate");
    list.push("Proxy-Authorization");
    list.push("TE");
    list.push("Trailers");
    list.push("Transfer-Encoding");
    if !is_websocket_upgrade {
        list.push("Connection");
        list.push("Upgrade");
    }
    assert(list@.map_values(|s: &str| s@) =~= names);
    let mut i: usize = 0;
    proof {
        assert(names.subrange(0, names.len() as int) =~= names);
    }
    while i < list.len()
        invariant
            i <= list@.len(),
            list@.map_values(|s: &str| s@) == names,
            without_all(start, names) == without_all(headers_view(headers@), names.subrange(i as int, names.len() as int)),
        decreases list@.len() - i,
    {
        proof {
            let rest = names.subrange(i as int, names.len() as int);
            assert(rest[0] == list@[i as int]@);
            assert(rest.drop_first() =~= names.subrange(i + 1, names.len() as int));
        }
        remove_header(headers, list[i]);
        i += 1;
    }
    proof {
        assert(names.subrange(list@.len() as int, names.len() as int) =~= Seq::<Seq<char>>::empty());
        assert(names.subrange(0, names.len() as int) =~= names);
    }
    match remote_ip {
        Some(ip) => {
            let existing = get_header(headers, "X-Forwarded-For");
            let value = match existing {
                Some(e) => {
                    if e.unicode_len() == 0 {
                        String::from_str(ip)
                    } else {
                        let mut v = e;
                        v.append(", ");
                        v.append(ip);
                        v
                    }
                },
                None => String::from_str(ip),
            };
            set_header(headers, "X-Forwarded-For", value);
        },
        None => {},
    }
    set_header_if_missing(headers, "X-Forwarded-Host", hostname);
    set_header_if_missing(headers, "X-Forwarded-Proto", scheme);
}

/// The headers of a response after the standard ones are added: `Vary`
/// when missing, `Server` always, and `Content-Type` when missing or
/// empty (`application/octet-stream` for 200, else `text/html`).
pub open spec fn with_standard_headers(h: Seq<(Seq<char>, Seq<char>)>, status: u16) -> Seq<(Seq<char>, Seq<char>)> {
    let h1 = if first_value(h, "Vary"@) is Some {
        h
    } else {
        with_header(h, "Vary"@, "Accept-Encoding"@)
    };
    let h2 = with_header(h1, "Server"@, "Gruxi"@);
    set_if_missing(
        h2,
        "Content-Type"@,
        if status == 200 {
            "application/octet-stream"@
        } else {
            "text/html"@
        },
    )
}

/// Adds the standard headers to a response with status `status`.
pub fn add_standard_headers_to_response(headers: &mut Vec<(String, String)>, status: u16)
    ensures
        headers_view(final(headers)@) == with_standard_headers(headers_view(old(headers)@), status),
{
    if get_header(headers, "Vary").is_none() {
        set_header(headers, "Vary", String::from_str("Accept-Encoding"));
    }
    set_header(headers, "Server", String::from_str("Gruxi"));
    if status == 200 {
        set_header_if_missing(headers, "Content-Type", "application/octet-stream");
    } else {
        set_header_if_missing(headers, "Content-Type", "text/html");
    }
}

/// Header names compared without ASCII case form an equivalence.
proof fn lemma_same_name_equiv(a: Seq<char>, b: Seq<char>, c: Seq<char>)
    ensures
        same_name(a, a),
        same_name(a, b) ==> same_name(b, a),
        same_name(a, b) && same_name(b, c) ==> same_name(a, c),
{
}

/// Looking `x` up after removing `n`: nothing when `x` names the same
/// header, else what the lookup gave before.
proof fn lemma_first_value_without(h: Seq<(Seq<char>, Seq<char>)>, n: Seq<char>, x: Seq<char>)
    ensures
        first_value(without(h, n), x) == if same_name(x, n) {
            None
        } else {
            first_value(h, x)
        },
    decreases h.len(),
{
    reveal(Seq::filter);
    if h.len() > 0 {
        lemma_first_value_without(h.drop_last(), n, x);
        let e = h.last();
        lemma_same_name_equiv(e.0, x, n);
        lemma_same_name_equiv(x, e.0, n);
        lemma_same_name_equiv(e.0, n, x);
        if !same_name(e.0, n) {
            let sub = without(h.drop_last(), n);
            assert(without(h, n) == sub.push(e));
            assert(sub.push(e).drop_last() =~= sub);
        }
    }
}

/// Looking `x` up after setting `n` to `v`.
proof fn lemma_first_value_with(h: Seq<(Seq<char>, Seq<char>)>, n: Seq<char>, v: Seq<char>, x: Seq<char>)
    ensures
        first_value(with_header(h, n, v), x) == if same_name(x, n) {
            Some(v)
        } else {
            first_value(h, x)
        },
{
    lemma_first_value_without(h, n, x);
    lemma_same_name_equiv(x, n, x);
    let w = without(h, n);
    assert(w.push((n, v)).drop_last() =~= w);
}

/// Looking `x` up after setting `n` to `v` when it had no non-empty value.
proof fn lemma_first_value_set_if_missing(h: Seq<(Seq<char>, Seq<char>)>, n: Seq<char>, v: Seq<char>, x: Seq<char>)
    ensures
        !same_name(x, n) ==> first_value(set_if_missing(h, n, v), x) == first_value(h, x),
        same_name(x, n) && first_value(h, n) is Some && first_value(h, n)->0.len() > 0 ==> first_value(
            set_if_missing(h, n, v),
            x,
        ) == first_value(h, x),
{
    lemma_first_value_with(h, n, v, x);
    lemma_same_name_equiv(x, n, x);
    if same_name(x, n) {
        lemma_first_value_same(h, x, n);
    }
}

/// Two names that denote the same header look up the same value.
proof fn lemma_first_value_same(h: Seq<(Seq<char>, Seq<char>)>, a: Seq<char>, b: Seq<char>)
    requires
        same_name(a, b),
    ensures
        first_value(h, a) == first_value(h, b),
    decreases h.len(),
{
    if h.len() > 0 {
        lemma_first_value_same(h.drop_last(), a, b);
        lemma_same_name_equiv(h.last().0, a, b);
        lemma_same_name_equiv(h.last().0, b, a);
        lemma_same_name_equiv(a, b, a);
    }
}

/// Looking `x` up after removing every name of `names`.
proof fn lemma_first_value_without_all(h: Seq<(Seq<char>, Seq<char>)>, names: Seq<Seq<char>>, x: Seq<char>)
    ensures
        (exists|k: int| 0 <= k < names.len() && same_name(x, #[trigger] names[k])) ==> first_value(
            without_all(h, names),
            x,
        ) is None,
        (forall|k: int| 0 <= k < names.len() ==> !same_name(x, #[trigger] names[k])) ==> first_value(
            without_all(h, names),
            x,
        ) == first_value(h, x),
    decreases names.len(),
{
    if names.len() > 0 {
        lemma_first_value_without(h, names[0], x);
        lemma_first_value_without_all(without(h, names[0]), names.drop_first(), x);
        if exists|k: int| 0 <= k < names.len() && same_name(x, #[trigger] names[k]) {
            let k = choose|k: int| 0 <= k < names.len() && same_name(x, #[trigger] names[k]);
            if k > 0 {
                assert(names.drop_first()[k - 1] == names[k]);
                assert(same_name(x, names.drop_first()[k - 1]));
            }
        }
        if forall|k: int| 0 <= k < names.len() ==> !same_name(x, #[trigger] names[k]) {
            assert(!same_name(x, names[0]));
            assert forall|k: int| 0 <= k < names.drop_first().len() implies !same_name(x, #[trigger] names.drop_first()[k]) by {
                assert(names.drop_first()[k] == names[k + 1]);
            }
        }
    }
}

/// `a` and `b` differ (without regard to ASCII case) at position `i`.
proof fn lemma_names_differ(a: Seq<char>, b: Seq<char>, i: int)
    requires
        0 <= i < a.len(),
        i < b.len(),
        ascii_lower(a[i]) != ascii_lower(b[i]),
    ensures
        !same_name(a, b),
{
}

/// The proxy's clean-up removes every hop-by-hop header (`Connection` and
/// `Upgrade` too unless the response is a WebSocket upgrade) and keeps
/// every other header that is not an `X-Forwarded-*` one as it was.
pub proof fn lemma_cleaned_headers(
    h: Seq<(Seq<char>, Seq<char>)>,
    remote_ip: Option<Seq<char>>,
    hostname: Seq<char>,
    scheme: Seq<char>,
    is_websocket_upgrade: bool,
    x: Seq<char>,
)
    ensures
        (exists|k: int|
            0 <= k < hop_by_hop_spec(is_websocket_upgrade).len() && same_name(
                x,
                #[trigger] hop_by_hop_spec(is_websocket_upgrade)[k],
            )) && !same_name(x, "X-Forwarded-For"@) && !same_name(x, "X-Forwarded-Host"@) && !same_name(
            x,
            "X-Forwarded-Proto"@,
        ) ==> first_value(
            cleaned_headers(h, remote_ip, hostname, scheme, is_websocket_upgrade),
            x,
        ) is None,
        (forall|k: int|
            0 <= k < hop_by_hop_spec(is_websocket_upgrade).len() ==> !same_name(
                x,
                #[trigger] hop_by_hop_spec(is_websocket_upgrade)[k],
            )) && !same_name(x, "X-Forwarded-For"@) && !same_name(x, "X-Forwarded-Host"@) && !same_name(
            x,
            "X-Forwarded-Proto"@,
        ) ==> first_value(cleaned_headers(h, remote_ip, hostname, scheme, is_websocket_upgrade), x)
            == first_value(h, x),
{
    let names = hop_by_hop_spec(is_websocket_upgrade);
    let h1 = without_all(h, names);
    lemma_first_value_without_all(h, names, x);
    let h2 = match remote_ip {
        Some(ip) => with_header(h1, "X-Forwarded-For"@, forwarded_for(first_value(h1, "X-Forwarded-For"@), ip)),
        None => h1,
    };
    match remote_ip {
        Some(ip) => lemma_first_value_with(
            h1,
            "X-Forwarded-For"@,
            forwarded_for(first_value(h1, "X-Forwarded-For"@), ip),
            x,
        ),
        None => {},
    }
    let h3 = set_if_missing(h2, "X-Forwarded-Host"@, hostname);
    lemma_first_value_set_if_missing(h2, "X-Forwarded-Host"@, hostname, x);
    lemma_first_value_set_if_missing(h3, "X-Forwarded-Proto"@, scheme, x);
}

/// On a WebSocket upgrade the `Connection` and `Upgrade` headers pass
/// through the clean-up unchanged.
pub proof fn lemma_upgrade_keeps_connection_headers(
    h: Seq<(Seq<char>, Seq<char>)>,
    remote_ip: Option<Seq<char>>,
    hostname: Seq<char>,
    scheme: Seq<char>,
)
    ensures
        first_value(cleaned_headers(h, remote_ip, hostname, scheme, true), "Connection"@) == first_value(
            h,
            "Connection"@,
        ),
        first_value(cleaned_headers(h, remote_ip, hostname, scheme, true), "Upgrade"@) == first_value(
            h,
            "Upgrade"@,
        ),
{
    reveal_strlit("Connection");
    reveal_strlit("Upgrade");
    reveal_strlit("Keep-Alive");
    reveal_strlit("Proxy-Authenticate");
    reveal_strlit("Proxy-Authorization");
    reveal_strlit("TE");
    reveal_strlit("Trailers");
    reveal_strlit("Transfer-Encoding");
    reveal_strlit("X-Forwarded-For");
    reveal_strlit("X-Forwarded-Host");
    reveal_strlit("X-Forwarded-Proto");
    let names = hop_by_hop_spec(true);
    let c = "Connection"@;
    let u = "Upgrade"@;
    lemma_names_differ(c, "Keep-Alive"@, 0);
    assert forall|k: int| 0 <= k < names.len() implies !same_name(c, #[trigger] names[k]) && !same_name(u, names[k]) by {
        lemma_names_differ(c, "Keep-Alive"@, 0);
    }
    lemma_cleaned_headers(h, remote_ip, hostname, scheme, true, c);
    lemma_cleaned_headers(h, remote_ip, hostname, scheme, true, u);
}

/// Without a WebSocket upgrade none of the hop-by-hop headers survives the
/// clean-up.
pub proof fn lemma_no_hop_by_hop_after_clean(
    h: Seq<(Seq<char>, Seq<char>)>,
    remote_ip: Option<Seq<char>>,
    hostname: Seq<char>,
    scheme: Seq<char>,
    k: int,
)
    requires
        0 <= k < hop_by_hop_spec(false).len(),
    ensures
        first_value(cleaned_headers(h, remote_ip, hostname, scheme, false), hop_by_hop_spec(false)[k])
            is None,
{
    reveal_strlit("Connection");
    reveal_strlit("Upgrade");
    reveal_strlit("Keep-Alive");
    reveal_strlit("Proxy-Authenticate");
    reveal_strlit("Proxy-Authorization");
    reveal_strlit("TE");
    reveal_strlit("Trailers");
    reveal_strlit("Transfer-Encoding");
    reveal_strlit("X-Forwarded-For");
    reveal_strlit("X-Forwarded-Host");
    reveal_strlit("X-Forwarded-Proto");
    let x = hop_by_hop_spec(false)[k];
    lemma_same_name_equiv(x, x, x);
    assert(!same_name(x, "X-Forwarded-For"@) && !same_name(x, "X-Forwarded-Host"@) && !same_name(
        x,
        "X-Forwarded-Proto"@,
    )) by {
        if x.len() == "X-Forwarded-Proto"@.len() {
            lemma_names_differ(x, "X-Forwarded-Proto"@, 0);
        }
        if x.len() == "X-Forwarded-Host"@.len() {
            lemma_names_differ(x, "X-Forwarded-Host"@, 0);
        }
        if x.len() == "X-Forwarded-For"@.len() {
            lemma_names_differ(x, "X-Forwarded-For"@, 0);
        }
    }
    lemma_cleaned_headers(h, remote_ip, hostname, scheme, false, x);
}

/// Adding the standard headers sets `Server` to `Gruxi`, sets `Vary` only
/// when it was absent, keeps a non-empty `Content-Type`, and otherwise
/// sets `Content-Type` by the status.
pub proof fn lemma_standard_headers(h: Seq<(Seq<char>, Seq<char>)>, status: u16)
    ensures
        first_value(with_standard_headers(h, status), "Server"@) == Some("Gruxi"@),
        first_value(h, "Vary"@) is Some ==> first_value(with_standard_headers(h, status), "Vary"@)
            == first_value(h, "Vary"@),
        first_value(h, "Vary"@) is None ==> first_value(with_standard_headers(h, status), "Vary"@)
            == Some("Accept-Encoding"@),
        first_value(h, "Content-Type"@) is Some && first_value(h, "Content-Type"@)->0.len() > 0
            ==> first_value(with_standard_headers(h, status), "Content-Type"@) == first_value(
            h,
            "Content-Type"@,
        ),
        !(first_value(h, "Content-Type"@) is Some && first_value(h, "Content-Type"@)->0.len() > 0)
            ==> first_value(with_standard_headers(h, status), "Content-Type"@) == Some(
            if status == 200 {
                "application/octet-stream"@
            } else {
                "text/html"@
            },
        ),
{
    reveal_strlit("Vary");
    reveal_strlit("Server");
    reveal_strlit("Content-Type");
    let v = "Vary"@;
    let sv = "Server"@;
    let ct = "Content-Type"@;
    let d = if status == 200 {
        "application/octet-stream"@
    } else {
        "text/html"@
    };
    lemma_same_name_equiv(v, v, v);
    lemma_same_name_equiv(sv, sv, sv);
    lemma_same_name_equiv(ct, ct, ct);
    let h1 = if first_value(h, v) is Some {
        h
    } else {
        with_header(h, v, "Accept-Encoding"@)
    };
    lemma_first_value_with(h, v, "Accept-Encoding"@, v);
    lemma_first_value_with(h, v, "Accept-Encoding"@, sv);
    lemma_first_value_with(h, v, "Accept-Encoding"@, ct);
    let h2 = with_header(h1, sv, "Gruxi"@);
    lemma_first_value_with(h1, sv, "Gruxi"@, v);
    lemma_first_value_with(h1, sv, "Gruxi"@, sv);
    lemma_first_value_with(h1, sv, "Gruxi"@, ct);
    lemma_first_value_set_if_missing(h2, ct, d, v);
    lemma_first_value_set_if_missing(h2, ct, d, sv);
    lemma_first_value_set_if_missing(h2, ct, d, ct);
    lemma_first_value_with(h2, ct, d, ct);
}

} // verus!
