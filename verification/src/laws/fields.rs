//! Laws of the header fields of requests and answers.
use crate::config::HttpRules;
use crate::headers::{
    apply_rules, fields, is_name, is_value, lowered, name_count, ruled, with_all, without_all,
    Advertising,
};
use crate::http::HttpProxy;
use crate::laws::counting::one_error_more;
use crate::metrics::ServiceMetrics;
use crate::middleware::rate_limiter::Refill;
use crate::text::{last_segment, law_last_segment};
use hyper::header::{HeaderMap, HeaderValue};
use vstd::prelude::*;
use vstd::utf8::*;

verus! {

/// The fields that rules set, in order.
pub open spec fn to_set(rules: Option<HttpRules>) -> Seq<(String, String)> {
    if rules is Some && rules->0.headers is Some && rules->0.headers->0.inject is Some {
        rules->0.headers->0.inject->0@
    } else {
        Seq::empty()
    }
}

/// The fields that rules remove, in order.
pub open spec fn to_remove(rules: Option<HttpRules>) -> Seq<String> {
    if rules is Some && rules->0.headers is Some && rules->0.headers->0.remove is Some {
        rules->0.headers->0.remove->0@
    } else {
        Seq::empty()
    }
}

/// Whether `text` is a name of the field that is called `name` in lower case.
pub open spec fn names(text: Seq<char>, name: Seq<u8>) -> bool {
    is_name(encode_utf8(text)) && lowered(encode_utf8(text)) == name
}

/// Whether entry `i` is the last one that sets the field `name`: it has that name and a value
/// that a field can have, and no later entry has both.
pub open spec fn sets_last(list: Seq<(String, String)>, name: Seq<u8>, i: int) -> bool {
    &&& 0 <= i < list.len()
    &&& names(list[i].0@, name) && is_value(encode_utf8(list[i].1@))
    &&& forall|j: int|
        i < j < list.len() ==> !(names((#[trigger] list[j]).0@, name) && is_value(
            encode_utf8(list[j].1@),
        ))
}

/// Whether no entry sets the field `name`.
pub open spec fn sets_not(list: Seq<(String, String)>, name: Seq<u8>) -> bool {
    forall|j: int|
        0 <= j < list.len() ==> !(names((#[trigger] list[j]).0@, name) && is_value(
            encode_utf8(list[j].1@),
        ))
}

/// Whether no entry removes the field `name`.
pub open spec fn removes_not(list: Seq<String>, name: Seq<u8>) -> bool {
    forall|j: int| 0 <= j < list.len() ==> !names((#[trigger] list[j])@, name)
}

/// Whether `after` has under `name` what following the rules makes of `before`: nothing where the
/// rules remove the field; else the value that they set last, alone, where they set it; and else
/// what was there.
pub open spec fn follows_rules(
    before: Map<Seq<u8>, Seq<Seq<u8>>>,
    rules: Option<HttpRules>,
    after: Map<Seq<u8>, Seq<Seq<u8>>>,
    name: Seq<u8>,
) -> bool {
    &&& !removes_not(to_remove(rules), name) ==> !after.contains_key(name)
    &&& removes_not(to_remove(rules), name) ==> {
        &&& forall|i: int| #[trigger]
            sets_last(to_set(rules), name, i) ==> after.contains_key(name) && after[name] == seq![
                encode_utf8(to_set(rules)[i].1@),
            ]
        &&& sets_not(to_set(rules), name) ==> same_field(before, after, name)
    }
}

/// Whether a field is there in both or in neither, with the same values.
pub open spec fn same_field(
    before: Map<Seq<u8>, Seq<Seq<u8>>>,
    after: Map<Seq<u8>, Seq<Seq<u8>>>,
    name: Seq<u8>,
) -> bool {
    &&& after.contains_key(name) == before.contains_key(name)
    &&& before.contains_key(name) ==> after[name] == before[name]
}

proof fn lemma_with_all(
    f: Map<Seq<u8>, Seq<Seq<u8>>>,
    list: Seq<(String, String)>,
    name: Seq<u8>,
    i: int,
)
    ensures
        sets_not(list, name) ==> same_field(f, with_all(f, list), name),
        sets_last(list, name, i) ==> with_all(f, list).contains_key(name) && with_all(f, list)[name]
            == seq![encode_utf8(list[i].1@)],
    decreases list.len(),
{
    if list.len() > 0 {
        let init = list.drop_last();
        let last = list[list.len() - 1];
        lemma_with_all(f, init, name, i);
        if sets_not(list, name) {
            assert forall|j: int| 0 <= j < init.len() implies !(names(
                (#[trigger] init[j]).0@,
                name,
            ) && is_value(encode_utf8(init[j].1@))) by {
                assert(list[j] == init[j]);
            }
            assert(!(names(last.0@, name) && is_value(encode_utf8(last.1@))));
        }
        if sets_last(list, name, i) && i < list.len() - 1 {
            assert(!(names(last.0@, name) && is_value(encode_utf8(last.1@))));
            assert forall|j: int| i < j < init.len() implies !(names(
                (#[trigger] init[j]).0@,
                name,
            ) && is_value(encode_utf8(init[j].1@))) by {
                assert(list[j] == init[j]);
            }
            assert(init[i] == list[i]);
            assert(sets_last(init, name, i));
        }
    }
}

proof fn lemma_without_all(f: Map<Seq<u8>, Seq<Seq<u8>>>, list: Seq<String>, name: Seq<u8>)
    ensures
        removes_not(list, name) ==> same_field(f, without_all(f, list), name),
        !removes_not(list, name) ==> !without_all(f, list).contains_key(name),
    decreases list.len(),
{
    if list.len() > 0 {
        let init = list.drop_last();
        let last = list[list.len() - 1];
        lemma_without_all(f, init, name);
        if removes_not(list, name) {
            assert forall|j: int| 0 <= j < init.len() implies !names(
                (#[trigger] init[j])@,
                name,
            ) by {
                assert(list[j] == init[j]);
            }
            assert(!names(last@, name));
        } else if !names(last@, name) {
            let j = choose|j: int| 0 <= j < list.len() && names((#[trigger] list[j])@, name);
            assert(names(init[j]@, name));
        }
    }
}

/// Following the rules of a service gives every field what they say of it: a field that they
/// remove is gone, also where they set it themselves; one that they set has the value that is set
/// last, and no other; and a field that neither list names is as the client sent it. That some of
/// the lists are missing makes no difference to the others.
pub proof fn law_rules_are_followed(
    f: Map<Seq<u8>, Seq<Seq<u8>>>,
    rules: Option<HttpRules>,
    name: Seq<u8>,
)
    ensures
        follows_rules(f, rules, ruled(f, rules), name),
{
    let set = with_all(f, to_set(rules));
    assert(ruled(f, rules) == without_all(set, to_remove(rules))) by {
        reveal_with_fuel(with_all, 2);
        reveal_with_fuel(without_all, 2);
    }
    lemma_without_all(set, to_remove(rules), name);
    lemma_with_all(f, to_set(rules), name, 0);
    assert forall|i: int| #[trigger] sets_last(to_set(rules), name, i) implies set.contains_key(
        name,
    ) && set[name] == seq![encode_utf8(to_set(rules)[i].1@)] by {
        lemma_with_all(f, to_set(rules), name, i);
    }
}

/// A field that the rules set is there once they were followed, with the value that they set, where
/// no later entry names it and they do not remove it; whether they remove any others or not.
pub proof fn law_set_fields_are_there(
    f: Map<Seq<u8>, Seq<Seq<u8>>>,
    rules: HttpRules,
    i: int,
)
    requires
        rules.headers is Some,
        rules.headers->0.inject is Some,
        0 <= i < rules.headers->0.inject->0@.len(),
        is_name(encode_utf8(rules.headers->0.inject->0@[i].0@)),
        is_value(encode_utf8(rules.headers->0.inject->0@[i].1@)),
        forall|j: int|
            i < j < rules.headers->0.inject->0@.len() ==> lowered(
                encode_utf8((#[trigger] rules.headers->0.inject->0@[j]).0@),
            ) != lowered(encode_utf8(rules.headers->0.inject->0@[i].0@)),
        rules.headers->0.remove matches Some(list) ==> forall|j: int|
            0 <= j < list@.len() ==> lowered(encode_utf8((#[trigger] list@[j])@)) != lowered(
                encode_utf8(rules.headers->0.inject->0@[i].0@),
            ),
    ensures
        ruled(f, Some(rules)).contains_key(
            lowered(encode_utf8(rules.headers->0.inject->0@[i].0@)),
        ),
        ruled(f, Some(rules))[lowered(encode_utf8(rules.headers->0.inject->0@[i].0@))] == seq![
            encode_utf8(rules.headers->0.inject->0@[i].1@),
        ],
{
    let name = lowered(encode_utf8(rules.headers->0.inject->0@[i].0@));
    law_rules_are_followed(f, Some(rules), name);
    assert(sets_last(to_set(Some(rules)), name, i));
}

/// The rules of a service are followed to their end, unless the map takes no more; it always does
/// up to 6553 names.
pub proof fn law_rules_are_applied(
    map: &mut HeaderMap<HeaderValue>,
    rules: &Option<HttpRules>,
    r: bool,
    name: Seq<u8>,
)
    requires
        call_ensures(apply_rules, (map, rules), r),
    ensures
        r ==> follows_rules(fields(*old(map)), *rules, fields(*final(map)), name),
        name_count(*old(map)) + to_set(*rules).len() <= 6554 ==> r,
        to_set(*rules).len() == 0 ==> r,
{
    law_rules_are_followed(fields(*map), *rules, name);
}

/// A request over HTTP/1 or HTTP/2 is forwarded with the fields that the rules make of it, but
/// for those of the proxy: it always tells the protocol and the proxy, and the address of the
/// client where a field can hold it; each of them once.
pub proof fn law_request_fields<F: Fn(u64, u128, u64, u64) -> Refill>(
    proxy: &HttpProxy<F>,
    headers: &mut HeaderMap<HeaderValue>,
    ip: &str,
    r: bool,
    name: Seq<u8>,
)
    requires
        call_ensures(HttpProxy::<F>::prepare, (proxy, headers, ip), r),
        r,
    ensures
        ({
            let after = fields(*final(headers));
            let x_for = encode_utf8("x-forwarded-for"@);
            let x_proto = encode_utf8("x-forwarded-proto"@);
            let x_by = encode_utf8("x-proxy-by"@);
            &&& after.contains_key(x_proto) && after[x_proto] == seq![encode_utf8("http"@)]
            &&& after.contains_key(x_by) && after[x_by] == seq![encode_utf8("SpectraProxy"@)]
            &&& is_value(encode_utf8(ip@)) ==> after.contains_key(x_for) && after[x_for] == seq![
                encode_utf8(ip@),
            ]
            &&& name != x_proto && name != x_by && (name != x_for || !is_value(encode_utf8(ip@)))
                ==> follows_rules(
                fields(*old(headers)),
                proxy.config.http_rules,
                after,
                name,
            )
        }),
{
    law_rules_are_followed(fields(*headers), proxy.config.http_rules, name);
    crate::headers::law_proxy_fields_cannot_be_forged(
        fields(*headers),
        proxy.config.http_rules,
        ip@,
    );
}

/// A request over HTTP/3 is forwarded with the fields that the rules make of it, but for those of
/// the proxy: it always tells the protocol and the proxy, each once.
pub proof fn law_stream_request_fields<F: Fn(u64, u128, u64, u64) -> Refill>(
    proxy: &HttpProxy<F>,
    headers: &mut HeaderMap<HeaderValue>,
    r: bool,
    name: Seq<u8>,
)
    requires
        call_ensures(HttpProxy::<F>::prepare_stream, (proxy, headers), r),
        r,
    ensures
        ({
            let after = fields(*final(headers));
            let x_proto = encode_utf8("x-forwarded-proto"@);
            let x_by = encode_utf8("x-proxy-by"@);
            &&& after.contains_key(x_proto) && after[x_proto] == seq![encode_utf8("https"@)]
            &&& after.contains_key(x_by) && after[x_by] == seq![encode_utf8("SpectraProxy-H3"@)]
            &&& name != x_proto && name != x_by ==> follows_rules(
                fields(*old(headers)),
                proxy.config.http_rules,
                after,
                name,
            )
        }),
{
    law_rules_are_followed(fields(*headers), proxy.config.http_rules, name);
    crate::headers::law_proxy_fields_cannot_be_forged(
        fields(*headers),
        proxy.config.http_rules,
        Seq::empty(),
    );
}

/// Requests are prepared whenever the map is sure to take what is set: with at most 6553 names
/// when the last field is set.
pub proof fn law_requests_are_prepared<F: Fn(u64, u128, u64, u64) -> Refill>(
    proxy: &HttpProxy<F>,
    headers: &mut HeaderMap<HeaderValue>,
    ip: &str,
    r: bool,
    stream: &mut HeaderMap<HeaderValue>,
    s: bool,
)
    requires
        call_ensures(HttpProxy::<F>::prepare, (proxy, headers, ip), r),
        call_ensures(HttpProxy::<F>::prepare_stream, (proxy, stream), s),
    ensures
        name_count(*old(headers)) + to_set(proxy.config.http_rules).len() + 3 <= 6554 ==> r,
        name_count(*old(stream)) + to_set(proxy.config.http_rules).len() + 2 <= 6554 ==> s,
{
}

/// The text that advertises HTTP/3 on `port`, for a day.
pub open spec fn advertising(port: Seq<char>) -> Seq<char> {
    "h3=\":"@ + port + "\"; ma=86400"@
}

/// `port` is what stands behind the last colon of `address`, or all of it where there is none.
pub open spec fn is_port(address: Seq<char>, port: Seq<char>) -> bool {
    &&& !port.contains(':')
    &&& address == port || (exists|head: Seq<char>| address == #[trigger] (head + seq![':']) + port)
}

proof fn lemma_port(address: Seq<char>)
    ensures
        is_port(address, last_segment(address)),
{
    law_last_segment(address);
    let port = last_segment(address);
    let n = address.len() - port.len();
    if n > 0 {
        let head = address.take(n - 1);
        assert(address =~= (head + seq![':']) + port);
    } else {
        assert(address =~= port);
    }
}

/// An answer over HTTP/1 or HTTP/2 advertises HTTP/3 on the port of the service exactly where the
/// service is encrypted and the port can stand in a field; all its other fields are the
/// backend's, and so are all of them otherwise.
pub proof fn law_answer_fields<F: Fn(u64, u128, u64, u64) -> Refill>(
    proxy: &HttpProxy<F>,
    headers: &mut HeaderMap<HeaderValue>,
    r: bool,
    name: Seq<u8>,
)
    requires
        call_ensures(HttpProxy::<F>::prepare_answer, (proxy, headers), r),
    ensures
        exists|port: Seq<char>| #[trigger]
            is_port(proxy.config.listen_addr@, port) && ({
                let c = proxy.config;
                let encrypted = c.acme_domain is Some || (c.cert_path is Some
                    && c.key_path is Some);
                let set = r && encrypted && is_value(encode_utf8(advertising(port)));
                let (before, after) = (fields(*old(headers)), fields(*final(headers)));
                &&& set && name == encode_utf8("alt-svc"@) ==> after.contains_key(name)
                    && after[name] == seq![encode_utf8(advertising(port))]
                &&& !set || name != encode_utf8("alt-svc"@) ==> same_field(before, after, name)
                &&& !encrypted || !is_value(encode_utf8(advertising(port))) ==> r
            }),
        name_count(*old(headers)) <= 6553 ==> r,
{
    lemma_port(proxy.config.listen_addr@);
    assert(is_port(proxy.config.listen_addr@, last_segment(proxy.config.listen_addr@)));
}

/// An answer over HTTP/3 advertises HTTP/3 on the port of the service and keeps all other fields
/// of the backend, unless the port cannot stand in a field, which counts as one error, or the map
/// takes no more.
pub proof fn law_stream_answer_fields<F: Fn(u64, u128, u64, u64) -> Refill>(
    proxy: &HttpProxy<F>,
    headers: &mut HeaderMap<HeaderValue>,
    m: &mut ServiceMetrics,
    r: Advertising,
    name: Seq<u8>,
)
    requires
        call_ensures(HttpProxy::<F>::prepare_stream_answer, (proxy, headers, m), r),
    ensures
        exists|port: Seq<char>| #[trigger]
            is_port(proxy.config.listen_addr@, port) && ({
                let (before, after) = (fields(*old(headers)), fields(*final(headers)));
                &&& r is BadAddress <==> !is_value(encode_utf8(advertising(port)))
                &&& r is Done && name == encode_utf8("alt-svc"@) ==> after.contains_key(name)
                    && after[name] == seq![encode_utf8(advertising(port))]
                &&& !(r is Done) || name != encode_utf8("alt-svc"@) ==> same_field(
                    before,
                    after,
                    name,
                )
            }),
        name_count(*old(headers)) <= 6553 ==> !(r is NoRoom),
        r is BadAddress ==> one_error_more(*old(m), *final(m)),
        !(r is BadAddress) ==> *final(m) == *old(m),
{
    lemma_port(proxy.config.listen_addr@);
    assert(is_port(proxy.config.listen_addr@, last_segment(proxy.config.listen_addr@)));
}

} // verus!
