//! Header fields: what the relay reads in them, and which of them it passes on.

use vstd::prelude::*;

use crate::text;

verus! {

#[verifier::external_type_specification]
#[verifier::external_body]
#[verifier::reject_recursive_types(T)]
pub struct ExHeaderMap<T>(http::HeaderMap<T>);

#[verifier::external_type_specification]
#[verifier::external_body]
pub struct ExHeaderValue(http::HeaderValue);

/// The fields of a header map, each with its name and its value, in the order in which the map
/// hands them out.
pub uninterp spec fn header_fields(headers: http::HeaderMap<http::HeaderValue>) -> Seq<
    (Seq<char>, Seq<u8>),
>;

/// A header field.
#[derive(Clone, Debug, PartialEq, Eq)]
pub struct HeaderField {
    pub name: String,
    pub value: Vec<u8>,
}

impl View for HeaderField {
    type V = (Seq<char>, Seq<u8>);

    open spec fn view(&self) -> (Seq<char>, Seq<u8>) {
        (self.name@, self.value@)
    }
}

pub open spec fn field_views(fields: Seq<HeaderField>) -> Seq<(Seq<char>, Seq<u8>)> {
    fields.map_values(|f: HeaderField| f@)
}

/// The value of the first field with a given name.
pub open spec fn first_value(fields: Seq<(Seq<char>, Seq<u8>)>, name: Seq<char>) -> Option<Seq<u8>>
    decreases fields.len(),
{
    if fields.len() == 0 {
        None
    } else if fields[0].0 == name {
        Some(fields[0].1)
    } else {
        first_value(fields.drop_first(), name)
    }
}

/// Whether no field before the `i`-th has its name.
pub open spec fn first_of_name(fields: Seq<(Seq<char>, Seq<u8>)>, i: int) -> bool {
    forall|j: int| 0 <= j < i ==> (#[trigger] fields[j]).0 != fields[i].0
}

/// Whether a text can be asked for as the name of a field: at most 64 ASCII characters, none of them
/// a double quote.
pub open spec fn is_field_name(name: Seq<char>) -> bool {
    &&& name.len() <= 64
    &&& forall|k: int|
        0 <= k < name.len() ==> (#[trigger] name[k]) != '"' && (name[k] as u32) < 128
}

/// `http::HeaderMap::get`: the first value of the field with a given name. Names in a header map
/// are in lower case, and the name asked for is compared without regard to ASCII case. This is said
/// of names of at most 64 ASCII characters without a double quote: a map can hold other names, but
/// what is asked for is not read as they were when they were put there.
#[verifier::external_body]
fn get_header(headers: &http::HeaderMap<http::HeaderValue>, name: &str) -> (r: Option<Vec<u8>>)
    requires
        is_field_name(name@),
    ensures
        match r {
            Some(value) => first_value(header_fields(*headers), text::lower(name@)) == Some(value@),
            None => first_value(header_fields(*headers), text::lower(name@)) is None,
        },
{
    headers.get(name).map(|value| value.as_bytes().to_vec())
}

/// `http::HeaderMap::iter`: every field of the map, one item for each value.
#[verifier::external_body]
pub(crate) fn all_headers(headers: &http::HeaderMap<http::HeaderValue>) -> (r: Vec<HeaderField>)
    ensures
        field_views(r@) == header_fields(*headers),
{
    headers
        .iter()
        .map(|(name, value)| HeaderField {
            name: name.as_str().to_owned(),
            value: value.as_bytes().to_vec(),
        })
        .collect()
}

/// `http::HeaderMap::into_iter`: the values of the map in the order of `iter`. The name stands
/// only with the first value of that name.
#[verifier::external_body]
fn take_headers(headers: http::HeaderMap<http::HeaderValue>) -> (r: Vec<(Option<String>, Vec<u8>)>)
    ensures
        r@.len() == header_fields(headers).len(),
        forall|i: int|
            0 <= i < r@.len() ==> (#[trigger] r@[i]).1@ == header_fields(headers)[i].1 && match r@[i].0 {
                Some(name) => name@ == header_fields(headers)[i].0 && first_of_name(
                    header_fields(headers),
                    i,
                ),
                None => !first_of_name(header_fields(headers), i),
            },
{
    headers
        .into_iter()
        .map(|(name, value)| (name.map(|name| name.as_str().to_owned()), value.as_bytes().to_vec()))
        .collect()
}

/// Bytes taken as one character each.
pub open spec fn byte_chars(bytes: Seq<u8>) -> Seq<char> {
    bytes.map_values(|b: u8| b as char)
}

/// Whether a header value is text: visible ASCII, spaces and tabs.
pub open spec fn is_visible(bytes: Seq<u8>) -> bool {
    forall|k: int| 0 <= k < bytes.len() ==> (32 <= #[trigger] bytes[k] < 127 || bytes[k] == 9)
}

/// The text of a header value.
pub open spec fn visible_text(bytes: Seq<u8>) -> Option<Seq<char>> {
    if is_visible(bytes) {
        Some(byte_chars(bytes))
    } else {
        None
    }
}

/// The text of the first field with a given name.
pub open spec fn text_of_header(
    fields: Seq<(Seq<char>, Seq<u8>)>,
    name: Seq<char>,
) -> Option<Seq<char>> {
    match first_value(fields, name) {
        Some(value) => visible_text(value),
        None => None,
    }
}

fn chars_of_bytes(bytes: &Vec<u8>) -> (r: String)
    ensures
        r@ == byte_chars(bytes@),
{
    let mut text = String::new();
    let mut i: usize = 0;
    while i < bytes.len()
        invariant
            i <= bytes@.len(),
            text@ == byte_chars(bytes@.take(i as int)),
        decreases bytes@.len() - i,
    {
        text.push(bytes[i] as char);
        i += 1;
        assert(text@ =~= byte_chars(bytes@.take(i as int)));
    }
    assert(bytes@.take(i as int) =~= bytes@);
    text
}

/// The text of a header value, where it is text.
pub fn value_text(value: &Vec<u8>) -> (r: Option<String>)
    ensures
        match r {
            Some(text) => visible_text(value@) == Some(text@),
            None => visible_text(value@) is None,
        },
{
    let mut i: usize = 0;
    while i < value.len()
        invariant
            i <= value@.len(),
            is_visible(value@.take(i as int)),
        decreases value@.len() - i,
    {
        let b: u8 = value[i];
        if !((b >= 32 && b < 127) || b == 9) {
            return None;
        }
        assert(is_visible(value@.take(i + 1))) by {
            assert(value@.take(i + 1) =~= value@.take(i as int).push(b));
        }
        i += 1;
    }
    assert(value@.take(i as int) =~= value@);
    Some(chars_of_bytes(value))
}

/// The text of the first field with a given name.
pub fn header_text(headers: &http::HeaderMap<http::HeaderValue>, name: &str) -> (r: Option<String>)
    requires
        is_field_name(name@),
    ensures
        match r {
            Some(text) => text_of_header(header_fields(*headers), text::lower(name@)) == Some(text@),
            None => text_of_header(header_fields(*headers), text::lower(name@)) is None,
        },
{
    match get_header(headers, name) {
        Some(value) => value_text(&value),
        None => None,
    }
}

/// The first value of the field with a given name, one character for each byte.
pub fn header_chars(headers: &http::HeaderMap<http::HeaderValue>, name: &str) -> (r: Option<String>)
    requires
        is_field_name(name@),
    ensures
        match r {
            Some(chars) => first_value(header_fields(*headers), text::lower(name@)) is Some
                && chars@ == byte_chars(
                first_value(header_fields(*headers), text::lower(name@))->Some_0,
            ),
            None => first_value(header_fields(*headers), text::lower(name@)) is None,
        },
{
    match get_header(headers, name) {
        Some(value) => Some(chars_of_bytes(&value)),
        None => None,
    }
}

/// Fields that carry the relay's own credentials and settings.
pub open spec fn relay_header(name: Seq<char>) -> bool {
    ||| text::same_ignoring_case(name, "x-omp-relay-token"@)
    ||| text::same_ignoring_case(name, "x-omp-relay-scheme"@)
}

/// Fields that concern one connection only.
pub open spec fn hop_by_hop(name: Seq<char>) -> bool {
    let n = text::lower(name);
    ||| n == "connection"@
    ||| n == "keep-alive"@
    ||| n == "proxy-authenticate"@
    ||| n == "proxy-authorization"@
    ||| n == "te"@
    ||| n == "trailer"@
    ||| n == "transfer-encoding"@
    ||| n == "upgrade"@
}

/// Fields of the WebSocket handshake, which each connection has of its own.
pub open spec fn websocket_handshake(name: Seq<char>) -> bool {
    let n = text::lower(name);
    ||| n == "sec-websocket-key"@
    ||| n == "sec-websocket-version"@
    ||| n == "sec-websocket-accept"@
    ||| n == "sec-websocket-extensions"@
}

/// Fields that a forward proxy keeps to itself.
pub open spec fn proxy_or_hop(name: Seq<char>) -> bool {
    hop_by_hop(name) || text::lower(name) == "proxy-connection"@
}

pub fn is_relay_header(name: &str) -> (r: bool)
    ensures
        r == relay_header(name@),
{
    text::eq_ignore_case(name, "x-omp-relay-token") || text::eq_ignore_case(
        name,
        "x-omp-relay-scheme",
    )
}

pub fn is_hop_by_hop(name: &str) -> (r: bool)
    ensures
        r == hop_by_hop(name@),
{
    let n = text::to_lower(name);
    let n = n.as_str();
    text::same_text(n, "connection") || text::same_text(n, "keep-alive") || text::same_text(
        n,
        "proxy-authenticate",
    ) || text::same_text(n, "proxy-authorization") || text::same_text(n, "te") || text::same_text(
        n,
        "trailer",
    ) || text::same_text(n, "transfer-encoding") || text::same_text(n, "upgrade")
}

pub fn is_websocket_handshake_header(name: &str) -> (r: bool)
    ensures
        r == websocket_handshake(name@),
{
    let n = text::to_lower(name);
    let n = n.as_str();
    text::same_text(n, "sec-websocket-key") || text::same_text(n, "sec-websocket-version")
        || text::same_text(n, "sec-websocket-accept") || text::same_text(
        n,
        "sec-websocket-extensions",
    )
}

pub fn is_proxy_or_hop_header(name: &str) -> (r: bool)
    ensures
        r == proxy_or_hop(name@),
{
    let n = text::to_lower(name);
    is_hop_by_hop(name) || text::same_text(n.as_str(), "proxy-connection")
}

/// Whether a relayed request or response keeps a field.
pub open spec fn passes(name: Seq<char>, websocket: bool) -> bool {
    &&& !relay_header(name)
    &&& !hop_by_hop(name)
    &&& !(websocket && websocket_handshake(name))
}

/// The fields that a relayed request or response keeps.
pub open spec fn filtered(fields: Seq<(Seq<char>, Seq<u8>)>, websocket: bool) -> Seq<
    (Seq<char>, Seq<u8>),
> {
    fields.filter(|f: (Seq<char>, Seq<u8>)| passes(f.0, websocket))
}

/// The fields that a relayed request or response keeps, in their order.
pub fn filtered_headers(
    headers: &http::HeaderMap<http::HeaderValue>,
    websocket: bool,
) -> (r: Vec<HeaderField>)
    ensures
        field_views(r@) == filtered(header_fields(*headers), websocket),
{
    let fields = all_headers(headers);
    let ghost views = field_views(fields@);
    let ghost keep = |f: (Seq<char>, Seq<u8>)| passes(f.0, websocket);
    let mut kept: Vec<HeaderField> = Vec::new();
    proof {
        reveal(Seq::filter);
        assert(field_views(kept@) =~= views.take(0).filter(keep));
    }
    let mut i: usize = 0;
    while i < fields.len()
        invariant
            i <= fields@.len(),
            views == field_views(fields@),
            keep == (|f: (Seq<char>, Seq<u8>)| passes(f.0, websocket)),
            field_views(kept@) == views.take(i as int).filter(keep),
        decreases fields@.len() - i,
    {
        let name = fields[i].name.as_str();
        let ghost before = kept@;
        proof {
            reveal(Seq::filter);
            assert(views.take(i + 1).drop_last() =~= views.take(i as int));
            assert(views[i as int] == fields@[i as int]@);
        }
        if !is_relay_header(name) && !is_hop_by_hop(name) && (!websocket
            || !is_websocket_handshake_header(name)) {
            let field = HeaderField { name: fields[i].name.clone(), value: fields[i].value.clone() };
            assert(field.value@ =~= fields@[i as int].value@);
            kept.push(field);
            assert(field_views(kept@) =~= field_views(before).push(field@));
        }
        i += 1;
    }
    assert(views.take(i as int) =~= views);
    kept
}

/// What a forward proxy passes on of the first `n` fields: the first value of each name, unless
/// the field is the proxy's own or concerns one connection.
pub open spec fn forwarded_of(fields: Seq<(Seq<char>, Seq<u8>)>, n: int) -> Seq<
    (Seq<char>, Seq<u8>),
>
    decreases n,
{
    if n <= 0 {
        Seq::empty()
    } else {
        let before = forwarded_of(fields, n - 1);
        if first_of_name(fields, n - 1) && !proxy_or_hop(fields[n - 1].0) {
            before.push(fields[n - 1])
        } else {
            before
        }
    }
}

pub open spec fn forwarded(fields: Seq<(Seq<char>, Seq<u8>)>) -> Seq<(Seq<char>, Seq<u8>)> {
    forwarded_of(fields, fields.len() as int)
}

/// The fields that a forward proxy passes on, in their order.
pub fn forwarded_headers(headers: http::HeaderMap<http::HeaderValue>) -> (r: Vec<HeaderField>)
    ensures
        field_views(r@) == forwarded(header_fields(headers)),
{
    let ghost fields = header_fields(headers);
    let items = take_headers(headers);
    let mut kept: Vec<HeaderField> = Vec::new();
    assert(field_views(kept@) =~= forwarded_of(fields, 0));
    let mut i: usize = 0;
    while i < items.len()
        invariant
            i <= items@.len(),
            items@.len() == fields.len(),
            forall|k: int|
                0 <= k < items@.len() ==> (#[trigger] items@[k]).1@ == fields[k].1 && match items@[k].0 {
                    Some(name) => name@ == fields[k].0 && first_of_name(fields, k),
                    None => !first_of_name(fields, k),
                },
            field_views(kept@) == forwarded_of(fields, i as int),
        decreases items@.len() - i,
    {
        let ghost before = kept@;
        assert(items@[i as int].1@ == fields[i as int].1);
        match &items[i].0 {
            Some(name) => {
                if !is_proxy_or_hop_header(name.as_str()) {
                    let field = HeaderField { name: name.clone(), value: items[i].1.clone() };
                    assert(field.value@ =~= fields[i as int].1);
                    kept.push(field);
                    assert(field_views(kept@) =~= field_views(before).push(field@));
                }
            },
            None => {},
        }
        i += 1;
    }
    kept
}

/// A relayed request or response never carries the relay's credentials, its settings or a field of
/// one connection; every other field is kept.
pub proof fn law_relayed_fields(fields: Seq<(Seq<char>, Seq<u8>)>, websocket: bool)
    ensures
        forall|i: int|
            0 <= i < filtered(fields, websocket).len() ==> passes(
                (#[trigger] filtered(fields, websocket)[i]).0,
                websocket,
            ) && fields.contains(filtered(fields, websocket)[i]),
        forall|i: int|
            0 <= i < fields.len() && passes((#[trigger] fields[i]).0, websocket) ==> filtered(
                fields,
                websocket,
            ).contains(fields[i]),
{
    let keep = |f: (Seq<char>, Seq<u8>)| passes(f.0, websocket);
    let kept = filtered(fields, websocket);
    assert forall|i: int| 0 <= i < kept.len() implies passes((#[trigger] kept[i]).0, websocket)
        && fields.contains(kept[i]) by {
        fields.lemma_filter_pred(keep, i);
        assert(kept.contains(kept[i]));
        fields.lemma_filter_contains_rev(keep, kept[i]);
    }
    assert forall|i: int|
        0 <= i < fields.len() && passes((#[trigger] fields[i]).0, websocket) implies kept.contains(
        fields[i],
    ) by {
        fields.lemma_filter_contains(keep, i);
    }
}

proof fn lemma_forwarded_of(fields: Seq<(Seq<char>, Seq<u8>)>, n: int)
    requires
        0 <= n <= fields.len(),
    ensures
        forall|i: int|
            0 <= i < forwarded_of(fields, n).len() ==> !proxy_or_hop(
                (#[trigger] forwarded_of(fields, n)[i]).0,
            ),
        forall|i: int|
            0 <= i < forwarded_of(fields, n).len() ==> exists|k: int|
                0 <= k < n && first_of_name(fields, k) && (#[trigger] fields[k])
                    == #[trigger] forwarded_of(fields, n)[i],
        forall|k: int|
            0 <= k < n && first_of_name(fields, k) && !proxy_or_hop((#[trigger] fields[k]).0)
                ==> forwarded_of(fields, n).contains(fields[k]),
    decreases n,
{
    if n > 0 {
        lemma_forwarded_of(fields, n - 1);
        let before = forwarded_of(fields, n - 1);
        let all = forwarded_of(fields, n);
        assert forall|i: int| 0 <= i < all.len() implies exists|k: int|
            0 <= k < n && first_of_name(fields, k) && (#[trigger] fields[k]) == #[trigger] all[i] by {
            if i < before.len() {
                assert(all[i] == before[i]);
                let k = choose|k: int|
                    0 <= k < n - 1 && first_of_name(fields, k) && (#[trigger] fields[k]) == before[i];
                assert(fields[k] == all[i]);
            } else {
                assert(fields[n - 1] == all[i]);
            }
        }
        assert forall|k: int|
            0 <= k < n && first_of_name(fields, k) && !proxy_or_hop(
                (#[trigger] fields[k]).0,
            ) implies all.contains(fields[k]) by {
            if k < n - 1 {
                assert(before.contains(fields[k]));
                let i = choose|i: int| 0 <= i < before.len() && before[i] == fields[k];
                assert(all[i] == fields[k]);
            } else {
                assert(all[all.len() - 1] == fields[k]);
            }
        }
    }
}

/// A forward proxy passes on no field of its own and none of one connection; of every other name
/// it passes on the first value, and no second one.
pub proof fn law_forwarded_fields(fields: Seq<(Seq<char>, Seq<u8>)>)
    ensures
        forall|i: int|
            0 <= i < forwarded(fields).len() ==> !proxy_or_hop((#[trigger] forwarded(fields)[i]).0),
        forall|i: int|
            0 <= i < forwarded(fields).len() ==> exists|k: int|
                0 <= k < fields.len() && first_of_name(fields, k) && (#[trigger] fields[k])
                    == #[trigger] forwarded(fields)[i],
        forall|k: int|
            0 <= k < fields.len() && first_of_name(fields, k) && !proxy_or_hop(
                (#[trigger] fields[k]).0,
            ) ==> forwarded(fields).contains(fields[k]),
{
    lemma_forwarded_of(fields, fields.len() as int);
}

/// The first value of a name is that of the first field that has it, and there is none where no field
/// has it.
pub proof fn law_the_first_field_of_a_name_counts(
    fields: Seq<(Seq<char>, Seq<u8>)>,
    name: Seq<char>,
)
    ensures
        forall|k: int|
            0 <= k < fields.len() && (#[trigger] fields[k]).0 == name && (forall|j: int|
                0 <= j < k ==> (#[trigger] fields[j]).0 != name) ==> first_value(fields, name) == Some(
                fields[k].1,
            ),
        (forall|j: int| 0 <= j < fields.len() ==> (#[trigger] fields[j]).0 != name) ==> first_value(
            fields,
            name,
        ) is None,
    decreases fields.len(),
{
    if fields.len() > 0 {
        let rest = fields.drop_first();
        law_the_first_field_of_a_name_counts(rest, name);
        assert forall|k: int|
            0 <= k < fields.len() && (#[trigger] fields[k]).0 == name && (forall|j: int|
                0 <= j < k ==> (#[trigger] fields[j]).0 != name) implies first_value(fields, name)
            == Some(fields[k].1) by {
            if k > 0 {
                assert(fields[0].0 != name);
                assert(rest[k - 1] == fields[k]);
                assert forall|j: int| 0 <= j < k - 1 implies (#[trigger] rest[j]).0 != name by {
                    assert(rest[j] == fields[j + 1]);
                }
            }
        }
        if forall|j: int| 0 <= j < fields.len() ==> (#[trigger] fields[j]).0 != name {
            assert(fields[0].0 != name);
            assert forall|j: int| 0 <= j < rest.len() implies (#[trigger] rest[j]).0 != name by {
                assert(rest[j] == fields[j + 1]);
            }
        }
    }
}

/// A header value is text exactly where each byte is a tab or one of 32 to 126, and the text then has
/// the character of each byte in its place.
pub proof fn law_header_text_is_exact(
    fields: Seq<(Seq<char>, Seq<u8>)>,
    name: Seq<char>,
    value: Seq<u8>,
)
    requires
        first_value(fields, name) == Some(value),
    ensures
        text_of_header(fields, name) is Some <==> forall|k: int|
            0 <= k < value.len() ==> (#[trigger] value[k]) == 9 || (32 <= value[k] && value[k] <= 126),
        text_of_header(fields, name) matches Some(text) ==> text.len() == value.len() && forall|k: int|
            0 <= k < text.len() ==> (#[trigger] text[k]) as int == value[k],
{
}

/// Whether a name is, but for ASCII case, one of the nine that a forward proxy keeps to itself.
pub open spec fn is_kept_back(name: Seq<char>) -> bool {
    ||| text::match_but_for_case(name, "proxy-authorization"@)
    ||| text::match_but_for_case(name, "proxy-authenticate"@)
    ||| text::match_but_for_case(name, "connection"@)
    ||| text::match_but_for_case(name, "keep-alive"@)
    ||| text::match_but_for_case(name, "proxy-connection"@)
    ||| text::match_but_for_case(name, "te"@)
    ||| text::match_but_for_case(name, "trailer"@)
    ||| text::match_but_for_case(name, "transfer-encoding"@)
    ||| text::match_but_for_case(name, "upgrade"@)
}

/// Whether a name is, but for ASCII case, one of those that a relayed request or response leaves out:
/// the relay's two, those of one connection, and those of a WebSocket handshake where it is one.
pub open spec fn is_left_out(name: Seq<char>, websocket: bool) -> bool {
    ||| text::match_but_for_case(name, "x-omp-relay-token"@)
    ||| text::match_but_for_case(name, "x-omp-relay-scheme"@)
    ||| text::match_but_for_case(name, "connection"@)
    ||| text::match_but_for_case(name, "keep-alive"@)
    ||| text::match_but_for_case(name, "proxy-authenticate"@)
    ||| text::match_but_for_case(name, "proxy-authorization"@)
    ||| text::match_but_for_case(name, "te"@)
    ||| text::match_but_for_case(name, "trailer"@)
    ||| text::match_but_for_case(name, "transfer-encoding"@)
    ||| text::match_but_for_case(name, "upgrade"@)
    ||| websocket && text::match_but_for_case(name, "sec-websocket-key"@)
    ||| websocket && text::match_but_for_case(name, "sec-websocket-version"@)
    ||| websocket && text::match_but_for_case(name, "sec-websocket-accept"@)
    ||| websocket && text::match_but_for_case(name, "sec-websocket-extensions"@)
}

/// A name in lower case stays as it is there.
proof fn lemma_is_lower(s: Seq<char>)
    requires
        forall|k: int| 0 <= k < s.len() ==> !('A' <= #[trigger] s[k] && s[k] <= 'Z'),
    ensures
        text::lower(s) == s,
{
    assert(text::lower(s) =~= s);
}

proof fn lemma_names_are_lower()
    ensures
        text::lower("proxy-authorization"@) == "proxy-authorization"@,
        text::lower("proxy-authenticate"@) == "proxy-authenticate"@,
        text::lower("connection"@) == "connection"@,
        text::lower("keep-alive"@) == "keep-alive"@,
        text::lower("proxy-connection"@) == "proxy-connection"@,
        text::lower("te"@) == "te"@,
        text::lower("trailer"@) == "trailer"@,
        text::lower("transfer-encoding"@) == "transfer-encoding"@,
        text::lower("upgrade"@) == "upgrade"@,
        text::lower("sec-websocket-key"@) == "sec-websocket-key"@,
        text::lower("sec-websocket-version"@) == "sec-websocket-version"@,
        text::lower("sec-websocket-accept"@) == "sec-websocket-accept"@,
        text::lower("sec-websocket-extensions"@) == "sec-websocket-extensions"@,
{
    reveal_strlit("proxy-authorization");
    reveal_strlit("proxy-authenticate");
    reveal_strlit("connection");
    reveal_strlit("keep-alive");
    reveal_strlit("proxy-connection");
    reveal_strlit("te");
    reveal_strlit("trailer");
    reveal_strlit("transfer-encoding");
    reveal_strlit("upgrade");
    reveal_strlit("sec-websocket-key");
    reveal_strlit("sec-websocket-version");
    reveal_strlit("sec-websocket-accept");
    reveal_strlit("sec-websocket-extensions");
    lemma_is_lower("proxy-authorization"@);
    lemma_is_lower("proxy-authenticate"@);
    lemma_is_lower("connection"@);
    lemma_is_lower("keep-alive"@);
    lemma_is_lower("proxy-connection"@);
    lemma_is_lower("te"@);
    lemma_is_lower("trailer"@);
    lemma_is_lower("transfer-encoding"@);
    lemma_is_lower("upgrade"@);
    lemma_is_lower("sec-websocket-key"@);
    lemma_is_lower("sec-websocket-version"@);
    lemma_is_lower("sec-websocket-accept"@);
    lemma_is_lower("sec-websocket-extensions"@);
}

/// The names that are kept back and left out are exactly the ones written down here.
proof fn lemma_names(name: Seq<char>, websocket: bool)
    ensures
        proxy_or_hop(name) <==> is_kept_back(name),
        passes(name, websocket) <==> !is_left_out(name, websocket),
{
    lemma_names_are_lower();
    text::law_case_is_ignored(name, "x-omp-relay-token"@);
    text::law_case_is_ignored(name, "x-omp-relay-scheme"@);
    text::law_case_is_ignored(name, "proxy-authorization"@);
    text::law_case_is_ignored(name, "proxy-authenticate"@);
    text::law_case_is_ignored(name, "connection"@);
    text::law_case_is_ignored(name, "keep-alive"@);
    text::law_case_is_ignored(name, "proxy-connection"@);
    text::law_case_is_ignored(name, "te"@);
    text::law_case_is_ignored(name, "trailer"@);
    text::law_case_is_ignored(name, "transfer-encoding"@);
    text::law_case_is_ignored(name, "upgrade"@);
    text::law_case_is_ignored(name, "sec-websocket-key"@);
    text::law_case_is_ignored(name, "sec-websocket-version"@);
    text::law_case_is_ignored(name, "sec-websocket-accept"@);
    text::law_case_is_ignored(name, "sec-websocket-extensions"@);
}

proof fn lemma_forwarded_of_push(
    fields: Seq<(Seq<char>, Seq<u8>)>,
    f: (Seq<char>, Seq<u8>),
    n: int,
)
    requires
        0 <= n <= fields.len(),
    ensures
        forwarded_of(fields.push(f), n) == forwarded_of(fields, n),
    decreases n,
{
    if n > 0 {
        lemma_forwarded_of_push(fields, f, n - 1);
        let more = fields.push(f);
        assert(more[n - 1] == fields[n - 1]);
        assert(first_of_name(more, n - 1) == first_of_name(fields, n - 1)) by {
            if first_of_name(fields, n - 1) {
                assert forall|j: int| 0 <= j < n - 1 implies (#[trigger] more[j]).0 != more[n - 1].0 by {
                    assert(more[j] == fields[j]);
                }
            }
            if first_of_name(more, n - 1) {
                assert forall|j: int| 0 <= j < n - 1 implies (#[trigger] fields[j]).0
                    != fields[n - 1].0 by {
                    assert(more[j] == fields[j]);
                }
            }
        }
    }
}

/// The forward proxy passes fields on one by one, in their order: each goes as it is, unless its
/// name is one of the nine that are kept back, or an earlier field has its name.
pub proof fn law_forwarding_is_exact(fields: Seq<(Seq<char>, Seq<u8>)>, f: (Seq<char>, Seq<u8>))
    ensures
        forwarded(Seq::empty()) == Seq::<(Seq<char>, Seq<u8>)>::empty(),
        forwarded(fields.push(f)) == if is_kept_back(f.0) || (exists|j: int|
            0 <= j < fields.len() && (#[trigger] fields[j]).0 == f.0) {
            forwarded(fields)
        } else {
            forwarded(fields).push(f)
        },
{
    lemma_names(f.0, false);
    lemma_forwarded_of_push(fields, f, fields.len() as int);
    let more = fields.push(f);
    let n = fields.len() as int;
    assert(more[n] == f);
    if exists|j: int| 0 <= j < fields.len() && (#[trigger] fields[j]).0 == f.0 {
        let j = choose|j: int| 0 <= j < fields.len() && (#[trigger] fields[j]).0 == f.0;
        assert(more[j] == fields[j]);
        assert(!first_of_name(more, n));
    } else {
        assert forall|j: int| 0 <= j < n implies (#[trigger] more[j]).0 != more[n].0 by {
            assert(more[j] == fields[j]);
        }
        assert(first_of_name(more, n));
    }
}

/// Every field whose name is none of the nine is passed on with the first value of its name, and none
/// of the nine ever is.
pub proof fn law_nine_names_are_kept_back(fields: Seq<(Seq<char>, Seq<u8>)>)
    ensures
        forall|k: int|
            0 <= k < fields.len() && (forall|j: int|
                0 <= j < k ==> (#[trigger] fields[j]).0 != fields[k].0) && !is_kept_back(
                (#[trigger] fields[k]).0,
            ) ==> forwarded(fields).contains(fields[k]),
        forall|i: int|
            0 <= i < forwarded(fields).len() ==> !is_kept_back((#[trigger] forwarded(fields)[i]).0)
                && fields.contains(forwarded(fields)[i]),
{
    law_forwarded_fields(fields);
    assert forall|k: int|
        0 <= k < fields.len() && (forall|j: int|
            0 <= j < k ==> (#[trigger] fields[j]).0 != fields[k].0) && !is_kept_back(
            (#[trigger] fields[k]).0,
        ) implies forwarded(fields).contains(fields[k]) by {
        lemma_names(fields[k].0, false);
        assert(first_of_name(fields, k));
    }
    assert forall|i: int| 0 <= i < forwarded(fields).len() implies !is_kept_back(
        (#[trigger] forwarded(fields)[i]).0,
    ) && fields.contains(forwarded(fields)[i]) by {
        lemma_names(forwarded(fields)[i].0, false);
    }
}

/// A relayed request or response keeps fields one by one, in their order: each as it is, unless its
/// name is one of those that are left out.
pub proof fn law_relaying_of_fields_is_exact(
    fields: Seq<(Seq<char>, Seq<u8>)>,
    f: (Seq<char>, Seq<u8>),
    websocket: bool,
)
    ensures
        filtered(Seq::empty(), websocket) == Seq::<(Seq<char>, Seq<u8>)>::empty(),
        filtered(fields.push(f), websocket) == if is_left_out(f.0, websocket) {
            filtered(fields, websocket)
        } else {
            filtered(fields, websocket).push(f)
        },
{
    reveal(Seq::filter);
    lemma_names(f.0, websocket);
    assert(fields.push(f).drop_last() =~= fields);
}

/// What fields are seen as is what they hold, each in its place.
pub proof fn law_views_of_fields_are_faithful(fields: Seq<HeaderField>, k: int)
    ensures
        field_views(fields).len() == fields.len(),
        0 <= k < fields.len() ==> field_views(fields)[k] == (fields[k].name@, fields[k].value@),
{
}

/// The classes of names, written out: two are the relay's own, eight concern one connection, and four
/// belong to a WebSocket handshake, each in whatever case.
pub proof fn law_classes_of_names_are_exact(name: Seq<char>)
    ensures
        relay_header(name) <==> {
            ||| text::match_but_for_case(name, "x-omp-relay-token"@)
            ||| text::match_but_for_case(name, "x-omp-relay-scheme"@)
        },
        hop_by_hop(name) <==> {
            ||| text::match_but_for_case(name, "connection"@)
            ||| text::match_but_for_case(name, "keep-alive"@)
            ||| text::match_but_for_case(name, "proxy-authenticate"@)
            ||| text::match_but_for_case(name, "proxy-authorization"@)
            ||| text::match_but_for_case(name, "te"@)
            ||| text::match_but_for_case(name, "trailer"@)
            ||| text::match_but_for_case(name, "transfer-encoding"@)
            ||| text::match_but_for_case(name, "upgrade"@)
        },
        websocket_handshake(name) <==> {
            ||| text::match_but_for_case(name, "sec-websocket-key"@)
            ||| text::match_but_for_case(name, "sec-websocket-version"@)
            ||| text::match_but_for_case(name, "sec-websocket-accept"@)
            ||| text::match_but_for_case(name, "sec-websocket-extensions"@)
        },
        proxy_or_hop(name) <==> is_kept_back(name),
{
    lemma_names(name, true);
    lemma_names_are_lower();
    text::law_case_is_ignored(name, "x-omp-relay-token"@);
    text::law_case_is_ignored(name, "x-omp-relay-scheme"@);
    text::law_case_is_ignored(name, "proxy-authorization"@);
    text::law_case_is_ignored(name, "proxy-authenticate"@);
    text::law_case_is_ignored(name, "connection"@);
    text::law_case_is_ignored(name, "keep-alive"@);
    text::law_case_is_ignored(name, "te"@);
    text::law_case_is_ignored(name, "trailer"@);
    text::law_case_is_ignored(name, "transfer-encoding"@);
    text::law_case_is_ignored(name, "upgrade"@);
    text::law_case_is_ignored(name, "sec-websocket-key"@);
    text::law_case_is_ignored(name, "sec-websocket-version"@);
    text::law_case_is_ignored(name, "sec-websocket-accept"@);
    text::law_case_is_ignored(name, "sec-websocket-extensions"@);
}

/// A value is text by itself exactly where each byte is a tab or one of 32 to 126, and has the
/// character of each byte in its place, as have all values taken byte by byte.
pub proof fn law_values_are_read_byte_by_byte(value: Seq<u8>, k: int)
    ensures
        visible_text(value) is Some <==> forall|i: int|
            0 <= i < value.len() ==> (#[trigger] value[i]) == 9 || (32 <= value[i] && value[i] <= 126),
        visible_text(value) matches Some(text) ==> text == byte_chars(value),
        byte_chars(value).len() == value.len(),
        0 <= k < value.len() ==> byte_chars(value)[k] as int == value[k],
{
}

} // verus!
