//! The default HTTP headers of an MCP client: its user agent, then the
//! configured static headers, then headers whose values come from
//! environment variables, each kept only when `http` accepts its name and
//! value.

use vstd::prelude::*;
use vstd::utf8::encode_utf8;
use crate::agents_md::is_blank;
use crate::byte_map::{ascii_lower, ByteMap};

verus! {

/// A byte allowed in a header name (an HTTP token character).
pub open spec fn header_name_byte(b: u8) -> bool {
    ||| b == 33
    ||| 35 <= b <= 39
    ||| b == 42
    ||| b == 43
    ||| b == 45
    ||| b == 46
    ||| 48 <= b <= 57
    ||| 65 <= b <= 90
    ||| 94 <= b <= 122
    ||| b == 124
    ||| b == 126
}

/// A header name that `http::HeaderName::from_bytes` accepts: between one
/// and 65535 token characters.
pub open spec fn valid_header_name(name: Seq<u8>) -> bool {
    &&& 1 <= name.len() <= 65535
    &&& forall|i: int| 0 <= i < name.len() ==> header_name_byte(name[i])
}

/// A header name as `http` stores it: ASCII letters made lower-case.
pub open spec fn normalized_name(name: Seq<u8>) -> Seq<u8> {
    name.map_values(|b: u8| ascii_lower(b))
}

/// A header value that `http::HeaderValue::from_str` accepts: tab, or bytes
/// from 32 up other than 127.
pub open spec fn valid_header_value(value: Seq<u8>) -> bool {
    forall|i: int| 0 <= i < value.len() ==> (value[i] >= 32 && value[i] != 127) || value[i] == 9
}

/// Only tab and visible ASCII, as `http::HeaderValue::from_static` demands.
pub open spec fn visible_ascii(value: Seq<u8>) -> bool {
    forall|i: int| 0 <= i < value.len() ==> (32 <= value[i] < 127) || value[i] == 9
}

/// `user-agent`.
pub open spec fn user_agent_name() -> Seq<u8> {
    "user-agent"@.map_values(|c: char| c as u8)
}

/// Calls `http::HeaderName::from_bytes`, and gives the name as `http`
/// stores it. Its contract, from the crate's source: the name is accepted
/// exactly when it is one to 65535 token characters, and is stored with
/// ASCII letters made lower-case.
#[verifier::external_body]
fn parse_header_name(name: &[u8]) -> (r: Option<Vec<u8>>)
    ensures
        r is Some <==> valid_header_name(name@),
        r matches Some(n) ==> n@ == normalized_name(name@),
{
    match http::HeaderName::from_bytes(name) {
        Ok(n) => Some(n.as_str().as_bytes().to_vec()),
        Err(_) => None,
    }
}

/// Calls `http::HeaderValue::from_str`, and gives the value's bytes. Its
/// contract, from the crate's source: the value is accepted exactly when
/// every byte is a tab or at least 32 and not 127, and is stored unchanged.
#[verifier::external_body]
fn parse_header_value(value: &str) -> (r: Option<Vec<u8>>)
    ensures
        r is Some <==> valid_header_value(encode_utf8(value@)),
        r matches Some(v) ==> v@ == encode_utf8(value@),
{
    match http::HeaderValue::from_str(value) {
        Ok(v) => Some(v.as_bytes().to_vec()),
        Err(_) => None,
    }
}

/// Calls `http::HeaderValue::from_static`, which panics unless the value
/// is tab and visible ASCII only (hence the `requires`), and gives the
/// value's bytes, which it stores unchanged.
#[verifier::external_body]
fn static_header_value(value: &'static str) -> (r: Vec<u8>)
    requires
        visible_ascii(encode_utf8(value@)),
    ensures
        r@ == encode_utf8(value@),
{
    http::HeaderValue::from_static(value).as_bytes().to_vec()
}

/// Gives the name of `http::header::USER_AGENT`, `user-agent`.
#[verifier::external_body]
fn user_agent_header_name() -> (r: Vec<u8>)
    ensures
        r@ == user_agent_name(),
{
    http::header::USER_AGENT.as_str().as_bytes().to_vec()
}

/// The views of a list of string pairs.
pub open spec fn pair_views(s: Seq<(String, String)>) -> Seq<(Seq<char>, Seq<char>)> {
    s.map_values(|p: (String, String)| (p.0@, p.1@))
}

/// The views of a list of names with values that may be missing.
pub open spec fn lookup_views(s: Seq<(String, Option<String>)>) -> Seq<
    (Seq<char>, Option<Seq<char>>),
> {
    s.map_values(
        |p: (String, Option<String>)|
            (
                p.0@,
                match p.1 {
                    Some(v) => Some(v@),
                    None => None,
                },
            ),
    )
}

/// `m` with a header set, when `http` accepts its name and value.
pub open spec fn with_header(m: Map<Seq<u8>, Seq<u8>>, name: Seq<char>, value: Seq<char>) -> Map<
    Seq<u8>,
    Seq<u8>,
> {
    if valid_header_name(encode_utf8(name)) && valid_header_value(encode_utf8(value)) {
        m.insert(normalized_name(encode_utf8(name)), encode_utf8(value))
    } else {
        m
    }
}

/// `m` with the static headers set in order.
pub open spec fn with_static_headers(
    m: Map<Seq<u8>, Seq<u8>>,
    headers: Seq<(Seq<char>, Seq<char>)>,
) -> Map<Seq<u8>, Seq<u8>>
    decreases headers.len(),
{
    if headers.len() == 0 {
        m
    } else {
        let (n, v) = headers.last();
        with_header(with_static_headers(m, headers.drop_last()), n, v)
    }
}

/// `m` with the headers read from the environment set in order: those
/// whose variable is set to more than white space.
pub open spec fn with_env_headers(
    m: Map<Seq<u8>, Seq<u8>>,
    headers: Seq<(Seq<char>, Option<Seq<char>>)>,
) -> Map<Seq<u8>, Seq<u8>>
    decreases headers.len(),
{
    if headers.len() == 0 {
        m
    } else {
        let prev = with_env_headers(m, headers.drop_last());
        match headers.last().1 {
            Some(v) => if is_blank(v) {
                prev
            } else {
                with_header(prev, headers.last().0, v)
            },
            None => prev,
        }
    }
}

/// The headers of an optional list, none when absent.
pub open spec fn optional_pairs(h: Option<Vec<(String, String)>>) -> Seq<(Seq<char>, Seq<char>)> {
    match h {
        Some(v) => pair_views(v@),
        None => Seq::empty(),
    }
}

/// The looked-up headers of an optional list, none when absent.
pub open spec fn optional_lookups(h: Option<Vec<(String, Option<String>)>>) -> Seq<
    (Seq<char>, Option<Seq<char>>),
> {
    match h {
        Some(v) => lookup_views(v@),
        None => Seq::empty(),
    }
}

/// Every name in `m` is one that `http` accepts, in the lower-case form in
/// which `http` stores it, and every value one that it accepts.
pub open spec fn all_headers_valid(m: Map<Seq<u8>, Seq<u8>>) -> bool {
    forall|k: Seq<u8>|
        #[trigger] m.contains_key(k) ==> valid_header_name(k) && normalized_name(k) == k
            && valid_header_value(m[k])
}

proof fn lemma_with_header_valid(m: Map<Seq<u8>, Seq<u8>>, name: Seq<char>, value: Seq<char>)
    requires
        all_headers_valid(m),
    ensures
        all_headers_valid(with_header(m, name, value)),
{
    let b = encode_utf8(name);
    if valid_header_name(b) && valid_header_value(encode_utf8(value)) {
        let nb = normalized_name(b);
        assert forall|i: int| 0 <= i < nb.len() implies header_name_byte(nb[i]) by {
            assert(header_name_byte(b[i]));
        }
        assert(valid_header_name(nb));
        assert(normalized_name(nb) =~= nb);
    }
}

proof fn lemma_static_headers_valid(m: Map<Seq<u8>, Seq<u8>>, h: Seq<(Seq<char>, Seq<char>)>)
    requires
        all_headers_valid(m),
    ensures
        all_headers_valid(with_static_headers(m, h)),
    decreases h.len(),
{
    if h.len() > 0 {
        lemma_static_headers_valid(m, h.drop_last());
        lemma_with_header_valid(with_static_headers(m, h.drop_last()), h.last().0, h.last().1);
    }
}

proof fn lemma_env_headers_valid(m: Map<Seq<u8>, Seq<u8>>, h: Seq<(Seq<char>, Option<Seq<char>>)>)
    requires
        all_headers_valid(m),
    ensures
        all_headers_valid(with_env_headers(m, h)),
    decreases h.len(),
{
    if h.len() > 0 {
        lemma_env_headers_valid(m, h.drop_last());
        if let Some(v) = h.last().1 {
            lemma_with_header_valid(with_env_headers(m, h.drop_last()), h.last().0, v);
        }
    }
}

/// Every default header has a name and a value that `http` accepts, the
/// name already in the lower-case form in which `http` stores it.
pub proof fn law_default_headers_are_valid(
    user_agent: Seq<char>,
    http_headers: Seq<(Seq<char>, Seq<char>)>,
    env_http_headers: Seq<(Seq<char>, Option<Seq<char>>)>,
)
    requires
        visible_ascii(encode_utf8(user_agent)),
    ensures
        all_headers_valid(
            with_env_headers(
                with_static_headers(
                    Map::empty().insert(user_agent_name(), encode_utf8(user_agent)),
                    http_headers,
                ),
                env_http_headers,
            ),
        ),
{
    reveal_strlit("user-agent");
    let m0 = Map::<Seq<u8>, Seq<u8>>::empty().insert(user_agent_name(), encode_utf8(user_agent));
    assert(valid_header_name(user_agent_name()));
    assert(normalized_name(user_agent_name()) =~= user_agent_name());
    assert(all_headers_valid(m0));
    lemma_static_headers_valid(m0, http_headers);
    lemma_env_headers_valid(with_static_headers(m0, http_headers), env_http_headers);
}

/// Header `j` of a list of static headers sets the header named `key`.
pub open spec fn static_sets(h: Seq<(Seq<char>, Seq<char>)>, j: int, key: Seq<u8>) -> bool {
    valid_header_name(encode_utf8(h[j].0)) && valid_header_value(encode_utf8(h[j].1))
        && normalized_name(encode_utf8(h[j].0)) == key
}

/// Header `j` of a list of environment headers sets the header named
/// `key`: its variable holds more than white space, and `http` accepts its
/// name and value.
pub open spec fn env_sets(h: Seq<(Seq<char>, Option<Seq<char>>)>, j: int, key: Seq<u8>) -> bool {
    &&& h[j].1 matches Some(v)
    &&& !is_blank(v)
    &&& valid_header_name(encode_utf8(h[j].0)) && valid_header_value(encode_utf8(v))
    &&& normalized_name(encode_utf8(h[j].0)) == key
}

proof fn lemma_static_kept(m: Map<Seq<u8>, Seq<u8>>, h: Seq<(Seq<char>, Seq<char>)>, i: int, n: int)
    requires
        0 <= i < n <= h.len(),
        static_sets(h, i, normalized_name(encode_utf8(h[i].0))),
        forall|j: int| i < j < h.len() ==> !static_sets(h, j, normalized_name(encode_utf8(h[i].0))),
    ensures
        with_static_headers(m, h.take(n)).contains_key(normalized_name(encode_utf8(h[i].0))),
        with_static_headers(m, h.take(n))[normalized_name(encode_utf8(h[i].0))] == encode_utf8(
            h[i].1,
        ),
    decreases n,
{
    let t = h.take(n);
    assert(t.drop_last() =~= h.take(n - 1));
    assert(t.last() == h[n - 1]);
    if n - 1 > i {
        lemma_static_kept(m, h, i, n - 1);
        assert(!static_sets(h, n - 1, normalized_name(encode_utf8(h[i].0))));
    }
}

/// A static header that `http` accepts is sent with its value unless a
/// later static header that `http` accepts has the same name.
pub proof fn law_static_header_is_sent(
    m: Map<Seq<u8>, Seq<u8>>,
    h: Seq<(Seq<char>, Seq<char>)>,
    i: int,
)
    requires
        0 <= i < h.len(),
        valid_header_name(encode_utf8(h[i].0)),
        valid_header_value(encode_utf8(h[i].1)),
        forall|j: int| i < j < h.len() ==> !static_sets(h, j, normalized_name(encode_utf8(h[i].0))),
    ensures
        with_static_headers(m, h).contains_key(normalized_name(encode_utf8(h[i].0))),
        with_static_headers(m, h)[normalized_name(encode_utf8(h[i].0))] == encode_utf8(h[i].1),
{
    lemma_static_kept(m, h, i, h.len() as int);
    assert(h.take(h.len() as int) =~= h);
}

proof fn lemma_env_kept(
    m: Map<Seq<u8>, Seq<u8>>,
    h: Seq<(Seq<char>, Option<Seq<char>>)>,
    i: int,
    n: int,
)
    requires
        0 <= i < n <= h.len(),
        env_sets(h, i, normalized_name(encode_utf8(h[i].0))),
        forall|j: int| i < j < h.len() ==> !env_sets(h, j, normalized_name(encode_utf8(h[i].0))),
    ensures
        with_env_headers(m, h.take(n)).contains_key(normalized_name(encode_utf8(h[i].0))),
        with_env_headers(m, h.take(n))[normalized_name(encode_utf8(h[i].0))] == encode_utf8(
            h[i].1->0,
        ),
    decreases n,
{
    let t = h.take(n);
    assert(t.drop_last() =~= h.take(n - 1));
    assert(t.last() == h[n - 1]);
    if n - 1 > i {
        lemma_env_kept(m, h, i, n - 1);
        assert(!env_sets(h, n - 1, normalized_name(encode_utf8(h[i].0))));
    }
}

/// A header read from the environment is sent with the variable's value
/// when the variable holds more than white space and `http` accepts the
/// name and value, unless a later such header has the same name.
pub proof fn law_env_header_is_sent(
    m: Map<Seq<u8>, Seq<u8>>,
    h: Seq<(Seq<char>, Option<Seq<char>>)>,
    i: int,
)
    requires
        0 <= i < h.len(),
        h[i].1 is Some,
        !is_blank(h[i].1->0),
        valid_header_name(encode_utf8(h[i].0)),
        valid_header_value(encode_utf8(h[i].1->0)),
        forall|j: int| i < j < h.len() ==> !env_sets(h, j, normalized_name(encode_utf8(h[i].0))),
    ensures
        with_env_headers(m, h).contains_key(normalized_name(encode_utf8(h[i].0))),
        with_env_headers(m, h)[normalized_name(encode_utf8(h[i].0))] == encode_utf8(h[i].1->0),
{
    lemma_env_kept(m, h, i, h.len() as int);
    assert(h.take(h.len() as int) =~= h);
}

/// Headers whose variables are unset or hold only white space change
/// nothing.
pub proof fn law_unset_env_headers_change_nothing(
    m: Map<Seq<u8>, Seq<u8>>,
    h: Seq<(Seq<char>, Option<Seq<char>>)>,
)
    requires
        forall|j: int| 0 <= j < h.len() ==> h[j].1 is None || is_blank(h[j].1->0),
    ensures
        with_env_headers(m, h) == m,
    decreases h.len(),
{
    if h.len() > 0 {
        law_unset_env_headers_change_nothing(m, h.drop_last());
        assert(h.last() == h[h.len() - 1]);
    }
}

fn set_header(headers: &mut ByteMap, name: &str, value: &str)
    ensures
        final(headers)@ == with_header(old(headers)@, name@, value@),
{
    let parsed_name = match parse_header_name(name.as_bytes()) {
        Some(n) => n,
        None => {
            return;
        },
    };
    let parsed_value = match parse_header_value(value) {
        Some(v) => v,
        None => {
            return;
        },
    };
    headers.insert(parsed_name, parsed_value);
}

/// Returns the default headers of an MCP client: `user-agent` set to
/// `user_agent`, then each static header in order, then each header whose
/// environment variable was found set (`env_http_headers` pairs a header
/// name with the variable's value, if any) to more than white space, in
/// order; a header whose name or value `http` refuses is left out, and a
/// later header replaces an earlier one of the same name.
pub fn build_default_headers(
    user_agent: &'static str,
    http_headers: Option<Vec<(String, String)>>,
    env_http_headers: Option<Vec<(String, Option<String>)>>,
) -> (r: ByteMap)
    requires
        visible_ascii(encode_utf8(user_agent@)),
    ensures
        r@ == with_env_headers(
            with_static_headers(
                Map::empty().insert(user_agent_name(), encode_utf8(user_agent@)),
                optional_pairs(http_headers),
            ),
            optional_lookups(env_http_headers),
        ),
{
    let mut headers = ByteMap::new();
    headers.insert(user_agent_header_name(), static_header_value(user_agent));
    let ghost start = headers@;
    let statics = match http_headers {
        Some(h) => h,
        None => Vec::new(),
    };
    let ghost s = pair_views(statics@);
    assert(s =~= optional_pairs(http_headers));
    let n = statics.len();
    assert(s.take(0) =~= Seq::<(Seq<char>, Seq<char>)>::empty());
    for i in 0..n
        invariant
            n == statics@.len(),
            s == pair_views(statics@),
            headers@ == with_static_headers(start, s.take(i as int)),
    {
        let ghost t = s.take(i + 1);
        assert(t.drop_last() =~= s.take(i as int));
        assert(t.last() == s[i as int]);
        set_header(&mut headers, statics[i].0.as_str(), statics[i].1.as_str());
    }
    assert(s.take(n as int) =~= s);
    let ghost middle = headers@;
    let from_env = match env_http_headers {
        Some(h) => h,
        None => Vec::new(),
    };
    let ghost e = lookup_views(from_env@);
    assert(e =~= optional_lookups(env_http_headers));
    let m = from_env.len();
    assert(e.take(0) =~= Seq::<(Seq<char>, Option<Seq<char>>)>::empty());
    for i in 0..m
        invariant
            m == from_env@.len(),
            e == lookup_views(from_env@),
            headers@ == with_env_headers(middle, e.take(i as int)),
    {
        let ghost t = e.take(i + 1);
        assert(t.drop_last() =~= e.take(i as int));
        assert(t.last() == e[i as int]);
        if let Some(value) = &from_env[i].1 {
            if !crate::agents_md::blank(value.as_str()) {
                set_header(&mut headers, from_env[i].0.as_str(), value.as_str());
            }
        }
    }
    assert(e.take(m as int) =~= e);
    headers
}

} // verus!
