//! The header fields of forwarded requests and of answers.
use crate::config::HttpRules;
use crate::text::{last_segment, last_segment_text};
use hyper::header::{
    HeaderMap, HeaderName, HeaderValue, InvalidHeaderName, InvalidHeaderValue, MaxSizeReached,
};
use vstd::prelude::*;
use vstd::string::*;
use vstd::utf8::*;

verus! {

/// The most names with which a header map is sure to take one more. Beyond that it depends on
/// how the names happen to be spread inside the map whether it does.
pub const MAX_NAMES: usize = 6553;

/// The header map of the `http` crate.
#[verifier::external_type_specification]
#[verifier::external_body]
#[verifier::reject_recursive_types(T)]
pub struct ExHeaderMap<T>(HeaderMap<T>);

/// The name of a header field in the `http` crate.
#[verifier::external_type_specification]
#[verifier::external_body]
pub struct ExHeaderName(HeaderName);

/// The value of a header field in the `http` crate.
#[verifier::external_type_specification]
#[verifier::external_body]
pub struct ExHeaderValue(HeaderValue);

/// The error of the `http` crate for what is no name of a header field.
#[verifier::external_type_specification]
#[verifier::external_body]
pub struct ExInvalidHeaderName(InvalidHeaderName);

/// The error of the `http` crate for what is no value of a header field.
#[verifier::external_type_specification]
#[verifier::external_body]
pub struct ExInvalidHeaderValue(InvalidHeaderValue);

/// The error of the `http` crate for a header map that takes no more.
#[verifier::external_type_specification]
#[verifier::external_body]
pub struct ExMaxSizeReached(MaxSizeReached);

/// What a header map holds: under the bytes of each name, in lower case, the bytes of its
/// values in order.
pub uninterp spec fn fields(map: HeaderMap<HeaderValue>) -> Map<Seq<u8>, Seq<Seq<u8>>>;

/// The number of different names in a header map.
pub uninterp spec fn name_count(map: HeaderMap<HeaderValue>) -> nat;

/// The bytes that a name holds.
pub uninterp spec fn name_bytes(name: HeaderName) -> Seq<u8>;

/// The bytes that a value holds.
pub uninterp spec fn value_bytes(value: HeaderValue) -> Seq<u8>;

/// Whether `b` may stand in the name of a header field: a digit, a letter, or one of
/// ``! # $ % & ' * + - . ^ _ ` | ~``.
pub open spec fn is_name_byte(b: u8) -> bool {
    ||| 48 <= b <= 57
    ||| 65 <= b <= 90
    ||| 94 <= b <= 122
    ||| b == 33
    ||| 35 <= b <= 39
    ||| b == 42
    ||| b == 43
    ||| b == 45
    ||| b == 46
    ||| b == 124
    ||| b == 126
}

/// Whether `bytes` are the name of a header field.
pub open spec fn is_name(bytes: Seq<u8>) -> bool {
    &&& 0 < bytes.len() <= 65535
    &&& forall|i: int| 0 <= i < bytes.len() ==> is_name_byte(#[trigger] bytes[i])
}

/// `b` in lower case.
pub open spec fn lower(b: u8) -> u8 {
    if 65 <= b <= 90 {
        (b + 32) as u8
    } else {
        b
    }
}

/// `bytes` in lower case.
pub open spec fn lowered(bytes: Seq<u8>) -> Seq<u8> {
    bytes.map_values(|b: u8| lower(b))
}

/// Whether `bytes` are the value of a header field: no control characters but tabs.
pub open spec fn is_value(bytes: Seq<u8>) -> bool {
    forall|i: int|
        0 <= i < bytes.len() ==> ((#[trigger] bytes[i]) >= 32 && bytes[i] != 127) || bytes[i] == 9
}

/// Trusted: `HeaderName::from_bytes`. It takes exactly the names of header fields and puts
/// them in lower case.
#[verifier::external_body]
fn parse_name(bytes: &[u8]) -> (r: Result<HeaderName, InvalidHeaderName>)
    ensures
        r is Ok <==> is_name(bytes@),
        r matches Ok(name) ==> name_bytes(name) == lowered(bytes@),
{
    HeaderName::from_bytes(bytes)
}

/// Trusted: `HeaderValue::from_str`. It takes exactly the values of header fields and keeps
/// their bytes.
#[verifier::external_body]
fn parse_value(text: &str) -> (r: Result<HeaderValue, InvalidHeaderValue>)
    ensures
        r is Ok <==> is_value(encode_utf8(text@)),
        r matches Ok(value) ==> value_bytes(value) == encode_utf8(text@),
{
    HeaderValue::from_str(text)
}

/// Trusted: `HeaderName::from_static`, which panics on what is no name in lower case.
#[verifier::external_body]
fn static_name(text: &'static str) -> (r: HeaderName)
    requires
        is_name(encode_utf8(text@)),
        lowered(encode_utf8(text@)) == encode_utf8(text@),
    ensures
        name_bytes(r) == encode_utf8(text@),
{
    HeaderName::from_static(text)
}

/// Trusted: `HeaderValue::from_static`, which panics on what is not visible ASCII.
#[verifier::external_body]
fn static_value(text: &'static str) -> (r: HeaderValue)
    requires
        forall|i: int|
            0 <= i < encode_utf8(text@).len() ==> 32 <= #[trigger] encode_utf8(text@)[i] < 127,
    ensures
        value_bytes(r) == encode_utf8(text@),
{
    HeaderValue::from_static(text)
}

/// Trusted: `HeaderMap::try_insert`. All values that the map had under the name give way to the
/// one value; the rest of the map stays as it is. A map that takes no more stays as it is as a
/// whole; that does not happen up to `MAX_NAMES` names. Whether it happens beyond, nothing is
/// claimed of.
#[verifier::external_body]
fn set_field(map: &mut HeaderMap<HeaderValue>, name: HeaderName, value: HeaderValue) -> (r: Result<
    (),
    MaxSizeReached,
>)
    ensures
        r is Ok ==> fields(*final(map)) == fields(*old(map)).insert(
            name_bytes(name),
            seq![value_bytes(value)],
        ),
        r is Ok ==> name_count(*final(map)) == if fields(*old(map)).contains_key(
            name_bytes(name),
        ) {
            name_count(*old(map))
        } else {
            name_count(*old(map)) + 1
        },
        r is Err ==> fields(*final(map)) == fields(*old(map)),
        r is Err ==> name_count(*final(map)) == name_count(*old(map)),
        name_count(*old(map)) <= MAX_NAMES ==> r is Ok,
{
    map.try_insert(name, value).map(|_| ())
}

/// Trusted: `HeaderMap::remove`. All values under the name leave the map; the rest of the map
/// stays as it is.
#[verifier::external_body]
fn drop_field(map: &mut HeaderMap<HeaderValue>, name: HeaderName)
    ensures
        fields(*final(map)) == fields(*old(map)).remove(name_bytes(name)),
        name_count(*final(map)) == if fields(*old(map)).contains_key(name_bytes(name)) {
            name_count(*old(map)) - 1
        } else {
            name_count(*old(map)) as int
        },
{
    map.remove(name);
}

/// Whether the map is sure to take `extra` more fields.
pub open spec fn room_for(map: HeaderMap<HeaderValue>, extra: nat) -> bool {
    extra > 0 ==> name_count(map) + extra <= MAX_NAMES + 1
}

/// Header fields after a field was set; what is no name or no value sets nothing.
pub open spec fn with_field(
    f: Map<Seq<u8>, Seq<Seq<u8>>>,
    name: Seq<char>,
    value: Seq<char>,
) -> Map<Seq<u8>, Seq<Seq<u8>>> {
    if is_name(encode_utf8(name)) && is_value(encode_utf8(value)) {
        f.insert(lowered(encode_utf8(name)), seq![encode_utf8(value)])
    } else {
        f
    }
}

/// Header fields after a field was removed; what is no name removes nothing.
pub open spec fn without_field(
    f: Map<Seq<u8>, Seq<Seq<u8>>>,
    name: Seq<char>,
) -> Map<Seq<u8>, Seq<Seq<u8>>> {
    if is_name(encode_utf8(name)) {
        f.remove(lowered(encode_utf8(name)))
    } else {
        f
    }
}

/// Header fields after those of `list` were set, one behind the other.
pub open spec fn with_all(
    f: Map<Seq<u8>, Seq<Seq<u8>>>,
    list: Seq<(String, String)>,
) -> Map<Seq<u8>, Seq<Seq<u8>>>
    decreases list.len(),
{
    if list.len() == 0 {
        f
    } else {
        with_field(with_all(f, list.drop_last()), list.last().0@, list.last().1@)
    }
}

/// Header fields after those of `list` were removed.
pub open spec fn without_all(
    f: Map<Seq<u8>, Seq<Seq<u8>>>,
    list: Seq<String>,
) -> Map<Seq<u8>, Seq<Seq<u8>>>
    decreases list.len(),
{
    if list.len() == 0 {
        f
    } else {
        without_field(without_all(f, list.drop_last()), list.last()@)
    }
}

/// Header fields after the rules of a service were followed: first the fields to set, then
/// those to remove.
pub open spec fn ruled(
    f: Map<Seq<u8>, Seq<Seq<u8>>>,
    rules: Option<HttpRules>,
) -> Map<Seq<u8>, Seq<Seq<u8>>> {
    match rules {
        Some(r) => match r.headers {
            Some(h) => {
                let set = match h.inject {
                    Some(list) => with_all(f, list@),
                    None => f,
                };
                match h.remove {
                    Some(list) => without_all(set, list@),
                    None => set,
                }
            },
            None => f,
        },
        None => f,
    }
}

/// How many fields the rules of a service set.
pub open spec fn set_by_rules(rules: Option<HttpRules>) -> nat {
    match rules {
        Some(r) => match r.headers {
            Some(h) => match h.inject {
                Some(list) => list@.len(),
                None => 0,
            },
            None => 0,
        },
        None => 0,
    }
}

/// Follows the rules of a service for one field to set. False where the map takes no more.
fn inject(map: &mut HeaderMap<HeaderValue>, name: &str, value: &str) -> (r: bool)
    ensures
        r ==> fields(*final(map)) == with_field(fields(*old(map)), name@, value@),
        room_for(*old(map), 1) ==> r,
        name_count(*final(map)) <= name_count(*old(map)) + 1,
{
    if let Ok(n) = parse_name(name.as_bytes()) {
        if let Ok(v) = parse_value(value) {
            return set_field(map, n, v).is_ok();
        }
    }
    true
}

/// Follows the rules of a service: first sets fields, then removes fields. False where the map
/// takes no more; the rules are not followed to their end then.
pub fn apply_rules(map: &mut HeaderMap<HeaderValue>, rules: &Option<HttpRules>) -> (r: bool)
    ensures
        r ==> fields(*final(map)) == ruled(fields(*old(map)), *rules),
        room_for(*old(map), set_by_rules(*rules)) ==> r,
        name_count(*final(map)) <= name_count(*old(map)) + set_by_rules(*rules),
{
    if let Some(r) = rules {
        if let Some(h) = &r.headers {
            if let Some(list) = &h.inject {
                if !inject_all(map, list) {
                    return false;
                }
            }
            if let Some(list) = &h.remove {
                remove_all(map, list);
            }
        }
    }
    true
}

fn inject_all(map: &mut HeaderMap<HeaderValue>, list: &Vec<(String, String)>) -> (r: bool)
    ensures
        r ==> fields(*final(map)) == with_all(fields(*old(map)), list@),
        room_for(*old(map), list@.len()) ==> r,
        name_count(*final(map)) <= name_count(*old(map)) + list@.len(),
{
    let ghost start = fields(*map);
    let mut i: usize = 0;
    assert(list@.take(0) =~= Seq::<(String, String)>::empty());
    while i < list.len()
        invariant
            i <= list@.len(),
            start == fields(*old(map)),
            fields(*map) == with_all(start, list@.take(i as int)),
            name_count(*map) <= name_count(*old(map)) + i,
        decreases list@.len() - i,
    {
        if !inject(map, list[i].0.as_str(), list[i].1.as_str()) {
            return false;
        }
        proof {
            assert(list@.take(i + 1).drop_last() =~= list@.take(i as int));
        }
        i = i + 1;
    }
    assert(list@.take(i as int) =~= list@);
    true
}

fn remove_all(map: &mut HeaderMap<HeaderValue>, list: &Vec<String>)
    ensures
        fields(*final(map)) == without_all(fields(*old(map)), list@),
        name_count(*final(map)) <= name_count(*old(map)),
{
    let ghost start = fields(*map);
    let mut i: usize = 0;
    assert(list@.take(0) =~= Seq::<String>::empty());
    while i < list.len()
        invariant
            i <= list@.len(),
            start == fields(*old(map)),
            fields(*map) == without_all(start, list@.take(i as int)),
            name_count(*map) <= name_count(*old(map)),
        decreases list@.len() - i,
    {
        if let Ok(name) = parse_name(list[i].as_str().as_bytes()) {
            drop_field(map, name);
        }
        proof {
            assert(list@.take(i + 1).drop_last() =~= list@.take(i as int));
        }
        i = i + 1;
    }
    assert(list@.take(i as int) =~= list@);
}

/// The name of the field that holds the address of the client.
pub open spec fn forwarded_for() -> Seq<u8> {
    encode_utf8("x-forwarded-for"@)
}

/// The name of the field that holds the protocol of the client.
pub open spec fn forwarded_proto() -> Seq<u8> {
    encode_utf8("x-forwarded-proto"@)
}

/// The name of the field that holds the name of the proxy.
pub open spec fn proxy_by() -> Seq<u8> {
    encode_utf8("x-proxy-by"@)
}

/// The name of the field that advertises other protocols.
pub open spec fn alt_svc() -> Seq<u8> {
    encode_utf8("alt-svc"@)
}

/// The header fields of a request that came over HTTP/1 or HTTP/2, as it is forwarded: the
/// rules of the service are followed, and then the fields of the proxy are set.
pub open spec fn forwarded_http(
    f: Map<Seq<u8>, Seq<Seq<u8>>>,
    rules: Option<HttpRules>,
    client_ip: Seq<char>,
) -> Map<Seq<u8>, Seq<Seq<u8>>> {
    let first = ruled(f, rules);
    let second = if is_value(encode_utf8(client_ip)) {
        first.insert(forwarded_for(), seq![encode_utf8(client_ip)])
    } else {
        first
    };
    second.insert(forwarded_proto(), seq![encode_utf8("http"@)]).insert(
        proxy_by(),
        seq![encode_utf8("SpectraProxy"@)],
    )
}

/// The header fields of a request that came over HTTP/3, as it is forwarded.
pub open spec fn forwarded_h3(
    f: Map<Seq<u8>, Seq<Seq<u8>>>,
    rules: Option<HttpRules>,
) -> Map<Seq<u8>, Seq<Seq<u8>>> {
    ruled(f, rules).insert(forwarded_proto(), seq![encode_utf8("https"@)]).insert(
        proxy_by(),
        seq![encode_utf8("SpectraProxy-H3"@)],
    )
}

/// What advertises HTTP/3 on the port of a listening address, for a day.
pub open spec fn advertisement(listen_addr: Seq<char>) -> Seq<char> {
    "h3=\":"@ + last_segment(listen_addr) + "\"; ma=86400"@
}

/// A lower case letter, a digit or a hyphen.
spec fn plain(c: char) -> bool {
    'a' <= c <= 'z' || '0' <= c <= '9' || c == '-'
}

proof fn lemma_plain_name(s: Seq<char>)
    requires
        0 < s.len() <= 100,
        forall|i: int| 0 <= i < s.len() ==> plain(#[trigger] s[i]),
    ensures
        is_name(encode_utf8(s)),
        lowered(encode_utf8(s)) == encode_utf8(s),
{
    assert(is_ascii_chars(s));
    is_ascii_chars_encode_utf8(s);
    assert(lowered(encode_utf8(s)) =~= encode_utf8(s));
}

/// The name of a field that the proxy sets.
fn own_name(which: OwnField) -> (r: HeaderName)
    ensures
        name_bytes(r) == which.bytes(),
{
    match which {
        OwnField::For => {
            proof {
                reveal_strlit("x-forwarded-for");
                lemma_plain_name("x-forwarded-for"@);
            }
            static_name("x-forwarded-for")
        },
        OwnField::Proto => {
            proof {
                reveal_strlit("x-forwarded-proto");
                lemma_plain_name("x-forwarded-proto"@);
            }
            static_name("x-forwarded-proto")
        },
        OwnField::By => {
            proof {
                reveal_strlit("x-proxy-by");
                lemma_plain_name("x-proxy-by"@);
            }
            static_name("x-proxy-by")
        },
        OwnField::AltSvc => {
            proof {
                reveal_strlit("alt-svc");
                lemma_plain_name("alt-svc"@);
            }
            static_name("alt-svc")
        },
    }
}

/// A field that the proxy sets.
enum OwnField {
    For,
    Proto,
    By,
    AltSvc,
}

impl OwnField {
    spec fn bytes(self) -> Seq<u8> {
        match self {
            OwnField::For => forwarded_for(),
            OwnField::Proto => forwarded_proto(),
            OwnField::By => proxy_by(),
            OwnField::AltSvc => alt_svc(),
        }
    }
}

proof fn lemma_visible(s: Seq<char>)
    requires
        forall|i: int| 0 <= i < s.len() ==> ' ' <= #[trigger] s[i] <= '~',
    ensures
        forall|i: int| 0 <= i < encode_utf8(s).len() ==> 32 <= #[trigger] encode_utf8(s)[i] < 127,
{
    assert(is_ascii_chars(s));
    is_ascii_chars_encode_utf8(s);
}

/// Sets the header fields of a request that came over HTTP/1 or HTTP/2 for forwarding. False
/// where the map takes no more; not all of them are set then.
pub fn prepare_http(
    map: &mut HeaderMap<HeaderValue>,
    rules: &Option<HttpRules>,
    client_ip: &str,
) -> (r: bool)
    ensures
        r ==> fields(*final(map)) == forwarded_http(fields(*old(map)), *rules, client_ip@),
        room_for(*old(map), set_by_rules(*rules) + 3) ==> r,
{
    if !apply_rules(map, rules) {
        return false;
    }
    if let Ok(value) = parse_value(client_ip) {
        if set_field(map, own_name(OwnField::For), value).is_err() {
            return false;
        }
    }
    proof {
        reveal_strlit("http");
        lemma_visible("http"@);
        reveal_strlit("SpectraProxy");
        lemma_visible("SpectraProxy"@);
    }
    set_field(map, own_name(OwnField::Proto), static_value("http")).is_ok() && set_field(
        map,
        own_name(OwnField::By),
        static_value("SpectraProxy"),
    ).is_ok()
}

/// Sets the header fields of a request that came over HTTP/3 for forwarding. False where the map
/// takes no more; not all of them are set then.
pub fn prepare_h3(map: &mut HeaderMap<HeaderValue>, rules: &Option<HttpRules>) -> (r: bool)
    ensures
        r ==> fields(*final(map)) == forwarded_h3(fields(*old(map)), *rules),
        room_for(*old(map), set_by_rules(*rules) + 2) ==> r,
{
    if !apply_rules(map, rules) {
        return false;
    }
    proof {
        reveal_strlit("https");
        lemma_visible("https"@);
        reveal_strlit("SpectraProxy-H3");
        lemma_visible("SpectraProxy-H3"@);
    }
    set_field(map, own_name(OwnField::Proto), static_value("https")).is_ok() && set_field(
        map,
        own_name(OwnField::By),
        static_value("SpectraProxy-H3"),
    ).is_ok()
}

/// What came of advertising HTTP/3 in an answer.
#[derive(Debug, Clone, Copy, PartialEq, Eq, Structural)]
pub enum Advertising {
    /// It is advertised.
    Done,
    /// The address holds what no header field can.
    BadAddress,
    /// The answer takes no more header fields.
    NoRoom,
}

/// Advertises HTTP/3 on the port of `listen_addr` in the header fields of an answer, where the
/// address and the answer allow it.
pub fn advertise(map: &mut HeaderMap<HeaderValue>, listen_addr: &str) -> (r: Advertising)
    ensures
        r is BadAddress <==> !is_value(encode_utf8(advertisement(listen_addr@))),
        room_for(*old(map), 1) ==> !(r is NoRoom),
        fields(*final(map)) == if r is Done {
            fields(*old(map)).insert(alt_svc(), seq![encode_utf8(advertisement(listen_addr@))])
        } else {
            fields(*old(map))
        },
{
    let mut text = "h3=\":".to_string();
    text.append(last_segment_text(listen_addr).as_str());
    text.append("\"; ma=86400");
    assert(text@ =~= advertisement(listen_addr@));
    match parse_value(text.as_str()) {
        Ok(value) => {
            if set_field(map, own_name(OwnField::AltSvc), value).is_ok() {
                Advertising::Done
            } else {
                Advertising::NoRoom
            }
        },
        Err(_) => Advertising::BadAddress,
    }
}

proof fn lemma_own_fields_differ()
    ensures
        forwarded_for() != forwarded_proto(),
        forwarded_for() != proxy_by(),
        forwarded_proto() != proxy_by(),
{
    reveal_strlit("x-forwarded-for");
    reveal_strlit("x-forwarded-proto");
    reveal_strlit("x-proxy-by");
    lemma_plain_name("x-forwarded-for"@);
    lemma_plain_name("x-forwarded-proto"@);
    lemma_plain_name("x-proxy-by"@);
    is_ascii_chars_encode_utf8("x-forwarded-for"@);
    is_ascii_chars_encode_utf8("x-forwarded-proto"@);
    is_ascii_chars_encode_utf8("x-proxy-by"@);
    assert(forwarded_for().len() == 15);
    assert(forwarded_proto().len() == 17);
    assert(proxy_by().len() == 10);
}

/// Whatever the client sent and whatever the rules say, a backend is told the protocol and the
/// proxy by the proxy alone, and over HTTP/1 and HTTP/2 the address of the client, where that
/// can be the value of a field.
pub proof fn law_proxy_fields_cannot_be_forged(
    f: Map<Seq<u8>, Seq<Seq<u8>>>,
    rules: Option<HttpRules>,
    client_ip: Seq<char>,
)
    ensures
        forwarded_http(f, rules, client_ip)[forwarded_proto()] == seq![encode_utf8("http"@)],
        forwarded_http(f, rules, client_ip)[proxy_by()] == seq![encode_utf8("SpectraProxy"@)],
        is_value(encode_utf8(client_ip)) ==> forwarded_http(f, rules, client_ip)[forwarded_for()]
            == seq![encode_utf8(client_ip)],
        forwarded_h3(f, rules)[forwarded_proto()] == seq![encode_utf8("https"@)],
        forwarded_h3(f, rules)[proxy_by()] == seq![encode_utf8("SpectraProxy-H3"@)],
{
    lemma_own_fields_differ();
}

proof fn lemma_without_all(f: Map<Seq<u8>, Seq<Seq<u8>>>, list: Seq<String>, i: int)
    requires
        0 <= i < list.len(),
        is_name(encode_utf8(list[i]@)),
    ensures
        !without_all(f, list).contains_key(lowered(encode_utf8(list[i]@))),
    decreases list.len(),
{
    if i < list.len() - 1 {
        assert(list.drop_last()[i] == list[i]);
        lemma_without_all(f, list.drop_last(), i);
    }
}

/// A field that is to be removed is not there once the rules were followed, whether the client
/// sent it or the rules themselves set it.
pub proof fn law_removed_fields_are_gone(
    f: Map<Seq<u8>, Seq<Seq<u8>>>,
    rules: HttpRules,
    i: int,
)
    requires
        rules.headers is Some,
        rules.headers->0.remove is Some,
        0 <= i < rules.headers->0.remove->0@.len(),
        is_name(encode_utf8(rules.headers->0.remove->0@[i]@)),
    ensures
        !ruled(f, Some(rules)).contains_key(
            lowered(encode_utf8(rules.headers->0.remove->0@[i]@)),
        ),
{
    let h = rules.headers->0;
    let list = h.remove->0@;
    let set = match h.inject {
        Some(l) => with_all(f, l@),
        None => f,
    };
    lemma_without_all(set, list, i);
}

/// A service without rules for header fields leaves those of the client alone.
pub proof fn law_no_rules_no_change(f: Map<Seq<u8>, Seq<Seq<u8>>>, rules: Option<HttpRules>)
    requires
        rules is None || rules->0.headers is None,
    ensures
        ruled(f, rules) == f,
{
}

} // verus!
