//! Authorized domains: which lists are well formed, which domains a grant
//! covers, and what the bulletin says of a discovery node.

use vstd::prelude::*;

use crate::json::{array_member, member, text_member, text_value, JsonValue};
use crate::ordering::{
    lemma_text_less_irreflexive, lemma_text_less_transitive, strictly_ascending, text_before,
    text_less,
};
use crate::text::{
    ends_with, is_white_space, law_parts_make_the_text, law_text_occurs_between_any_others,
    law_text_starts_and_ends_with_its_parts, law_trimmed_texts_are_kept,
    law_trimming_takes_the_white_space_at_the_ends, lemma_texts_push, occurs_in, same_text,
    stands_at, starts_with, text_contains, text_ends_with, text_starts_with, texts, trim_text,
    trimmed,
};

verus! {

/// The error of a list of domains that is not well formed.
pub open spec fn invalid_domains_error() -> Seq<char> {
    "invalid_authorized_domains"@
}

/// Whether `domain` is a name of one or more labels: it is not blank, has no
/// white space at its ends, and no empty label before, after or between dots.
pub open spec fn is_domain_name(domain: Seq<char>) -> bool {
    &&& trimmed(domain).len() > 0
    &&& trimmed(domain) == domain
    &&& !occurs_in(domain, ".."@)
    &&& !starts_with(domain, "."@)
    &&& !ends_with(domain, "."@)
}

/// Whether a list of domains is well formed: the wildcard alone, or domain
/// names in strictly ascending order.
pub open spec fn is_domain_list(domains: Seq<Seq<char>>) -> bool {
    if domains.contains("*"@) {
        domains.len() == 1
    } else {
        &&& forall|i: int| 0 <= i < domains.len() ==> is_domain_name(#[trigger] domains[i])
        &&& strictly_ascending(domains)
    }
}

/// Whether `domain` is a name of one or more labels.
fn domain_name(domain: &String) -> (valid: bool)
    ensures
        valid == is_domain_name(domain@),
{
    let inner = trim_text(domain);
    !(inner.as_str().is_empty() || inner != *domain || text_contains(domain, "..")
        || text_starts_with(domain, ".") || text_ends_with(domain, "."))
}

/// Accepts the lists of domains that are well formed.
pub fn validate_authorized_domain_list(domains: &[String]) -> (result: Result<(), String>)
    ensures
        result is Ok <==> is_domain_list(texts(domains@)),
        result matches Err(error) ==> error@ == invalid_domains_error(),
{
    let mut i: usize = 0;
    while i < domains.len()
        invariant
            i <= domains@.len(),
            forall|j: int| 0 <= j < i ==> #[trigger] texts(domains@)[j] != "*"@,
        decreases domains@.len() - i,
    {
        if same_text(&domains[i], "*") {
            assert(texts(domains@)[i as int] == "*"@);
            return if domains.len() == 1 {
                Ok(())
            } else {
                Err("invalid_authorized_domains".to_owned())
            };
        }
        i = i + 1;
    }
    let mut k: usize = 0;
    while k < domains.len()
        invariant
            k <= domains@.len(),
            !texts(domains@).contains("*"@),
            forall|j: int| 0 <= j < k ==> is_domain_name(#[trigger] texts(domains@)[j]),
            forall|p: int, q: int|
                0 <= p < q < k ==> text_less(
                    #[trigger] texts(domains@)[p],
                    #[trigger] texts(domains@)[q],
                ),
        decreases domains@.len() - k,
    {
        assert(texts(domains@)[k as int] == domains@[k as int]@);
        if !domain_name(&domains[k]) {
            return Err("invalid_authorized_domains".to_owned());
        }
        if k > 0 {
            assert(texts(domains@)[k as int - 1] == domains@[k as int - 1]@);
            if !text_before(&domains[k - 1], &domains[k]) {
                return Err("invalid_authorized_domains".to_owned());
            }
            assert forall|p: int| 0 <= p < k implies text_less(
                #[trigger] texts(domains@)[p],
                texts(domains@)[k as int],
            ) by {
                if p < k - 1 {
                    lemma_text_less_transitive(
                        texts(domains@)[p],
                        texts(domains@)[k as int - 1],
                        texts(domains@)[k as int],
                    );
                }
            }
        }
        k = k + 1;
    }
    Ok(())
}

/// Whether a grant of `granted` covers `requested`: the same domain, or one
/// below it.
pub open spec fn covers(granted: Seq<char>, requested: Seq<char>) -> bool {
    granted == requested || starts_with(requested, granted + "."@)
}

/// Whether one of `granted` covers `requested`.
pub open spec fn one_covers(granted: Seq<Seq<char>>, requested: Seq<char>) -> bool {
    exists|i: int| 0 <= i < granted.len() && covers(#[trigger] granted[i], requested)
}

/// Whether the grants cover every requested domain, of which there is one at
/// least.
pub open spec fn all_covered(granted: Seq<Seq<char>>, requested: Seq<Seq<char>>) -> bool {
    &&& requested.len() > 0
    &&& granted.contains("*"@) || forall|i: int|
        0 <= i < requested.len() ==> one_covers(granted, #[trigger] requested[i])
}

/// Whether a grant of `granted` covers `requested`.
pub fn authorized_domain_covers(granted: &str, requested: &str) -> (covered: bool)
    ensures
        covered == covers(granted@, requested@),
{
    let mut prefix = granted.to_owned();
    prefix.append(".");
    same_text(granted, requested) || text_starts_with(requested, &prefix)
}

/// Whether one of `granted` covers `requested`.
fn one_domain_covers(granted: &[String], requested: &str) -> (covered: bool)
    ensures
        covered == one_covers(texts(granted@), requested@),
{
    let mut i: usize = 0;
    while i < granted.len()
        invariant
            i <= granted@.len(),
            forall|j: int| 0 <= j < i ==> !covers(#[trigger] texts(granted@)[j], requested@),
        decreases granted@.len() - i,
    {
        assert(texts(granted@)[i as int] == granted@[i as int]@);
        if authorized_domain_covers(&granted[i], requested) {
            return true;
        }
        i = i + 1;
    }
    false
}

/// Whether the grants cover every requested domain, of which there is one at
/// least.
pub fn authorized_domains_cover(granted: &[String], requested: &[String]) -> (covered: bool)
    ensures
        covered == all_covered(texts(granted@), texts(requested@)),
{
    if requested.len() == 0 {
        return false;
    }
    let mut i: usize = 0;
    while i < granted.len()
        invariant
            i <= granted@.len(),
            requested@.len() > 0,
            forall|j: int| 0 <= j < i ==> #[trigger] texts(granted@)[j] != "*"@,
        decreases granted@.len() - i,
    {
        if same_text(&granted[i], "*") {
            assert(texts(granted@)[i as int] == "*"@);
            return true;
        }
        i = i + 1;
    }
    let mut k: usize = 0;
    while k < requested.len()
        invariant
            k <= requested@.len(),
            requested@.len() > 0,
            !texts(granted@).contains("*"@),
            forall|j: int|
                0 <= j < k ==> one_covers(texts(granted@), #[trigger] texts(requested@)[j]),
        decreases requested@.len() - k,
    {
        assert(texts(requested@)[k as int] == requested@[k as int]@);
        if !one_domain_covers(granted, &requested[k]) {
            return false;
        }
        k = k + 1;
    }
    true
}

/// What a grant covers, the domains below it cover too: covering is
/// transitive.
pub proof fn law_covering_is_transitive(a: Seq<char>, b: Seq<char>, c: Seq<char>)
    requires
        covers(a, b),
        covers(b, c),
    ensures
        covers(a, c),
{
    reveal_strlit(".");
    if a != b && b != c {
        let m = a.len() as int + 1;
        let n = b.len() as int + 1;
        assert(b.subrange(0, m) == a + "."@);
        assert(c.subrange(0, n) == b + "."@);
        assert(c.subrange(0, m) =~= c.subrange(0, n).subrange(0, m));
        assert(c.subrange(0, m) =~= b.subrange(0, m));
        assert(stands_at(c, a + "."@, 0));
    }
}

/// Two different domains do not cover each other.
pub proof fn law_covering_is_antisymmetric(a: Seq<char>, b: Seq<char>)
    requires
        covers(a, b),
        covers(b, a),
    ensures
        a == b,
{
    reveal_strlit(".");
}

/// A request for no domain at all is never covered, and the wildcard covers
/// every other request.
pub proof fn law_wildcard_covers_every_request(
    granted: Seq<Seq<char>>,
    requested: Seq<Seq<char>>,
)
    requires
        granted.contains("*"@),
    ensures
        all_covered(granted, requested) <==> requested.len() > 0,
{
}

/// A grant of nothing covers nothing.
pub proof fn law_no_grant_covers_nothing(requested: Seq<Seq<char>>)
    ensures
        !all_covered(Seq::empty(), requested),
{
    let granted = Seq::<Seq<char>>::empty();
    if all_covered(granted, requested) {
        assert(one_covers(granted, requested[0]));
    }
}

/// More grants cover no less.
pub proof fn law_covering_is_monotone(
    granted: Seq<Seq<char>>,
    more: Seq<Seq<char>>,
    requested: Seq<Seq<char>>,
)
    requires
        all_covered(granted, requested),
        forall|domain: Seq<char>| #[trigger] granted.contains(domain) ==> more.contains(domain),
    ensures
        all_covered(more, requested),
{
    if !more.contains("*"@) {
        assert forall|i: int| 0 <= i < requested.len() implies one_covers(
            more,
            #[trigger] requested[i],
        ) by {
            assert(one_covers(granted, requested[i]));
            let k = choose|k: int|
                0 <= k < granted.len() && covers(#[trigger] granted[k], requested[i]);
            assert(granted.contains(granted[k]));
            let m = choose|m: int| 0 <= m < more.len() && more[m] == granted[k];
            assert(covers(more[m], requested[i]));
        }
    }
}

/// Whether an event of the bulletin is of that type and about that node.
pub open spec fn is_event_about(
    event: JsonValue,
    discovery_did: Seq<char>,
    event_type: Seq<char>,
) -> bool {
    text_member(event, "subjectDid"@) == Some(discovery_did) && text_member(event, "eventType"@)
        == Some(event_type)
}

/// Whether an event of the bulletin is of that type and about that node.
fn event_about(event: &JsonValue, discovery_did: &str, event_type: &str) -> (about: bool)
    ensures
        about == is_event_about(*event, discovery_did@, event_type@),
{
    match (event.get_text("subjectDid"), event.get_text("eventType")) {
        (Some(subject), Some(kind)) => same_text(subject, discovery_did) && same_text(
            kind,
            event_type,
        ),
        _ => false,
    }
}

/// The events of a bulletin; none where it lists no events.
pub open spec fn bulletin_events(bulletin: JsonValue) -> Seq<JsonValue> {
    match array_member(bulletin, "events"@) {
        Some(events) => events,
        None => Seq::empty(),
    }
}

/// Whether the bulletin revokes the node.
pub open spec fn is_revoked(bulletin: JsonValue, discovery_did: Seq<char>) -> bool {
    exists|i: int|
        0 <= i < bulletin_events(bulletin).len() && is_event_about(
            #[trigger] bulletin_events(bulletin)[i],
            discovery_did,
            "DISCOVERY_NODE_REVOKED"@,
        )
}

/// The state of the node by the bulletin: revoked, or else active.
pub fn discovery_authorization_status(bulletin: &JsonValue, discovery_did: &str) -> (status: String)
    ensures
        status@ == if is_revoked(*bulletin, discovery_did@) {
            "revoked"@
        } else {
            "active"@
        },
{
    if let Some(events) = bulletin.get_array("events") {
        let mut i: usize = 0;
        while i < events.len()
            invariant
                i <= events@.len(),
                events@ == bulletin_events(*bulletin),
                forall|j: int|
                    0 <= j < i ==> !is_event_about(
                        #[trigger] bulletin_events(*bulletin)[j],
                        discovery_did@,
                        "DISCOVERY_NODE_REVOKED"@,
                    ),
            decreases events@.len() - i,
        {
            if event_about(&events[i], discovery_did, "DISCOVERY_NODE_REVOKED") {
                assert(is_event_about(
                    bulletin_events(*bulletin)[i as int],
                    discovery_did@,
                    "DISCOVERY_NODE_REVOKED"@,
                ));
                return "revoked".to_owned();
            }
            i = i + 1;
        }
    }
    "active".to_owned()
}

/// Whether the node goes on receiving notices and answering queries by the
/// bulletin: it does not once it is revoked.
pub fn may_serve(bulletin: &JsonValue, discovery_did: &str) -> (may: bool)
    ensures
        may <==> !is_revoked(*bulletin, discovery_did@),
{
    proof {
        reveal_strlit("revoked");
        reveal_strlit("active");
    }
    let status = discovery_authorization_status(bulletin, discovery_did);
    assert("revoked"@.len() != "active"@.len());
    !same_text(&status, "revoked")
}

/// A revocation is final: a bulletin that holds every event of an earlier one,
/// and more, still says so.
pub proof fn law_revocation_is_final(
    earlier: JsonValue,
    later: JsonValue,
    discovery_did: Seq<char>,
)
    requires
        is_revoked(earlier, discovery_did),
        forall|event: JsonValue| #[trigger]
            bulletin_events(earlier).contains(event) ==> bulletin_events(later).contains(event),
    ensures
        is_revoked(later, discovery_did),
{
    let events = bulletin_events(earlier);
    let i = choose|i: int|
        0 <= i < events.len() && is_event_about(
            #[trigger] events[i],
            discovery_did,
            "DISCOVERY_NODE_REVOKED"@,
        );
    assert(events.contains(events[i]));
    let k = choose|k: int|
        0 <= k < bulletin_events(later).len() && bulletin_events(later)[k] == events[i];
    assert(is_event_about(bulletin_events(later)[k], discovery_did, "DISCOVERY_NODE_REVOKED"@));
}

/// The texts among `values`.
pub open spec fn texts_among(values: Seq<JsonValue>) -> Seq<Seq<char>>
    decreases values.len(),
{
    if values.len() == 0 {
        Seq::empty()
    } else {
        let rest = texts_among(values.drop_last());
        match text_value(values.last()) {
            Some(text) => rest.push(text),
            None => rest,
        }
    }
}

/// The last of `events` that sets the domains of the node.
pub open spec fn latest_domains_event(
    events: Seq<JsonValue>,
    discovery_did: Seq<char>,
) -> Option<JsonValue>
    decreases events.len(),
{
    if events.len() == 0 {
        None
    } else if is_event_about(events.last(), discovery_did, "DISCOVERY_NODE_DOMAINS_UPDATED"@) {
        Some(events.last())
    } else {
        latest_domains_event(events.drop_last(), discovery_did)
    }
}

/// The domains that an event sets: the texts of its payload's list, or none.
pub open spec fn event_domains(event: JsonValue) -> Seq<Seq<char>> {
    match member(event, "payload"@) {
        Some(payload) => match array_member(payload, "authorizedDomains"@) {
            Some(values) => texts_among(values),
            None => Seq::empty(),
        },
        None => Seq::empty(),
    }
}

/// The domains that the bulletin grants the node: those of the last event that
/// sets them.
pub open spec fn bulletin_domains(bulletin: JsonValue, discovery_did: Seq<char>) -> Seq<Seq<char>> {
    match latest_domains_event(bulletin_events(bulletin), discovery_did) {
        Some(event) => event_domains(event),
        None => Seq::empty(),
    }
}

/// The domains that an event sets.
fn domains_of_event(event: &JsonValue) -> (domains: Vec<String>)
    ensures
        texts(domains@) == event_domains(*event),
{
    broadcast use lemma_texts_push;

    let mut domains: Vec<String> = Vec::new();
    assert(texts(domains@) =~= Seq::empty());
    if let Some(payload) = event.get("payload") {
        if let Some(values) = payload.get_array("authorizedDomains") {
            let mut i: usize = 0;
            while i < values.len()
                invariant
                    i <= values@.len(),
                    texts(domains@) == texts_among(values@.take(i as int)),
                decreases values@.len() - i,
            {
                assert(values@.take(i as int + 1).drop_last() =~= values@.take(i as int));
                if let Some(text) = values[i].as_text() {
                    domains.push(text.clone());
                }
                i = i + 1;
            }
            assert(values@.take(i as int) =~= values@);
        }
    }
    domains
}

/// The domains that the bulletin grants the node.
pub fn discovery_authorized_domains(bulletin: &JsonValue, discovery_did: &str) -> (domains: Vec<
    String,
>)
    ensures
        texts(domains@) == bulletin_domains(*bulletin, discovery_did@),
{
    if let Some(events) = bulletin.get_array("events") {
        let mut end: usize = events.len();
        assert(events@.take(end as int) =~= events@);
        while end > 0
            invariant
                end <= events@.len(),
                events@ == bulletin_events(*bulletin),
                latest_domains_event(events@, discovery_did@) == latest_domains_event(
                    events@.take(end as int),
                    discovery_did@,
                ),
            decreases end,
        {
            assert(events@.take(end as int).drop_last() =~= events@.take(end as int - 1));
            if event_about(&events[end - 1], discovery_did, "DISCOVERY_NODE_DOMAINS_UPDATED") {
                return domains_of_event(&events[end - 1]);
            }
            end = end - 1;
        }
    }
    let none: Vec<String> = Vec::new();
    assert(texts(none@) =~= Seq::empty());
    none
}

/// A grant covers its own domain and every domain that extends it by a dot, and
/// no other.
pub proof fn law_grant_covers_itself_and_what_is_below(granted: Seq<char>, rest: Seq<char>)
    ensures
        covers(granted, granted),
        covers(granted, granted + "."@ + rest),
        forall|requested: Seq<char>| #[trigger]
            covers(granted, requested) && requested != granted ==> exists|below: Seq<char>|
                requested == #[trigger] (granted + "."@ + below),
{
    law_text_starts_and_ends_with_its_parts(granted + "."@, rest);
    assert forall|requested: Seq<char>| #[trigger]
        covers(granted, requested) && requested != granted implies exists|below: Seq<char>|
        requested == #[trigger] (granted + "."@ + below) by {
        law_parts_make_the_text(requested, granted + "."@);
        let below = requested.skip((granted + "."@).len() as int);
        assert(stands_at(requested, granted + "."@, 0));
        assert(requested =~= granted + "."@ + below);
    }
}

/// Without a wildcard grant, a covered request leaves no domain out: for each
/// there is a grant that it equals or extends by a dot.
pub proof fn law_covered_requests_leave_no_domain_out(
    granted: Seq<Seq<char>>,
    requested: Seq<Seq<char>>,
    i: int,
)
    requires
        all_covered(granted, requested),
        !granted.contains("*"@),
        0 <= i < requested.len(),
    ensures
        exists|k: int|
            0 <= k < granted.len() && (requested[i] == #[trigger] granted[k] || exists|
                below: Seq<char>,
            |
                requested[i] == #[trigger] (granted[k] + "."@ + below)),
        all_covered(granted, seq![requested[i]]),
{
    assert(one_covers(granted, requested[i]));
    let k = choose|k: int| 0 <= k < granted.len() && covers(#[trigger] granted[k], requested[i]);
    law_grant_covers_itself_and_what_is_below(granted[k], Seq::empty());
    assert(seq![requested[i]][0] == requested[i]);
}

/// A request for one domain or more is covered where each of its domains is
/// granted itself, or extends a grant by a dot.
pub proof fn law_requests_within_the_grants_are_covered(
    granted: Seq<Seq<char>>,
    requested: Seq<Seq<char>>,
    places: Seq<int>,
    below: Seq<Seq<char>>,
)
    requires
        requested.len() > 0,
        places.len() == requested.len(),
        below.len() == requested.len(),
        forall|i: int|
            0 <= i < requested.len() ==> 0 <= #[trigger] places[i] < granted.len() && (requested[i]
                == granted[places[i]] || requested[i] == granted[places[i]] + "."@ + below[i]),
    ensures
        all_covered(granted, requested),
{
    assert forall|i: int| 0 <= i < requested.len() implies one_covers(
        granted,
        #[trigger] requested[i],
    ) by {
        law_grant_covers_itself_and_what_is_below(granted[places[i]], below[i]);
        assert(covers(granted[places[i]], requested[i]));
    }
}

/// A request for no domain is never covered.
pub proof fn law_empty_requests_are_not_covered(granted: Seq<Seq<char>>)
    ensures
        !all_covered(granted, Seq::empty()),
{
}

/// What a domain name is: a text with no white space at its ends, in which no
/// label before, after or between dots is empty.
pub proof fn law_domain_names_have_no_empty_label(
    domain: Seq<char>,
    before: Seq<char>,
    after: Seq<char>,
)
    requires
        is_domain_name(domain),
    ensures
        domain.len() > 0,
        !is_white_space(domain[0]),
        !is_white_space(domain.last()),
        domain != "."@ + after,
        domain != before + "."@,
        domain != before + ".."@ + after,
{
    law_trimming_takes_the_white_space_at_the_ends(domain);
    law_text_starts_and_ends_with_its_parts("."@, after);
    law_text_starts_and_ends_with_its_parts(before, "."@);
    law_text_occurs_between_any_others(before, ".."@, after);
}

/// A text that is not empty, has no white space at its ends and no empty label
/// is a domain name.
pub proof fn law_texts_without_empty_labels_are_domain_names(domain: Seq<char>)
    requires
        domain.len() > 0,
        !is_white_space(domain[0]),
        !is_white_space(domain.last()),
        domain[0] != '.',
        domain.last() != '.',
        forall|i: int| 0 <= i < domain.len() - 1 ==> !(#[trigger] domain[i] == '.' && domain[i + 1]
            == '.'),
    ensures
        is_domain_name(domain),
{
    reveal_strlit(".");
    reveal_strlit("..");
    law_trimmed_texts_are_kept(domain);
    if occurs_in(domain, ".."@) {
        let at = choose|at: int| #[trigger] stands_at(domain, ".."@, at);
        let window = domain.subrange(at, at + 2);
        assert(window == ".."@);
        assert(window[0] == domain[at]);
        assert(window[1] == domain[at + 1]);
    }
    if starts_with(domain, "."@) {
        assert(domain.subrange(0, 1)[0] == domain[0]);
    }
    if ends_with(domain, "."@) {
        assert(domain.subrange(domain.len() - 1, domain.len() as int)[0] == domain.last());
    }
}

/// A well-formed list of domains is the wildcard alone, or names each of which
/// comes before the next; and those lists are well formed.
pub proof fn law_well_formed_domain_lists(domains: Seq<Seq<char>>)
    ensures
        is_domain_list(seq!["*"@]),
        domains.contains("*"@) && domains.len() != 1 ==> !is_domain_list(domains),
        is_domain_list(domains) && !domains.contains("*"@) ==> domains.no_duplicates() && (forall|
            i: int,
        |
            0 <= i < domains.len() ==> is_domain_name(#[trigger] domains[i])) && (forall|
            i: int,
            j: int,
        |
            0 <= i < j < domains.len() ==> text_less(
                #[trigger] domains[i],
                #[trigger] domains[j],
            )),
        !domains.contains("*"@) && (forall|i: int|
            0 <= i < domains.len() ==> is_domain_name(#[trigger] domains[i])) && (forall|
            i: int,
            j: int,
        |
            0 <= i < j < domains.len() ==> text_less(
                #[trigger] domains[i],
                #[trigger] domains[j],
            )) ==> is_domain_list(domains),
{
    assert(seq!["*"@][0] == "*"@);
    assert(seq!["*"@].contains("*"@));
    if is_domain_list(domains) && !domains.contains("*"@) {
        assert forall|i: int, j: int|
            0 <= i < domains.len() && 0 <= j < domains.len() && i != j implies domains[i]
            != domains[j] by {
            lemma_text_less_irreflexive(domains[i]);
            if i < j {
                assert(text_less(domains[i], domains[j]));
            } else {
                assert(text_less(domains[j], domains[i]));
            }
        }
    }
}

/// A node is revoked just where an event of the bulletin names it and says so;
/// what is said of other nodes, or otherwise of this one, does not revoke it.
pub proof fn law_revocation_names_the_node(
    bulletin: JsonValue,
    events: Seq<JsonValue>,
    discovery_did: Seq<char>,
)
    requires
        array_member(bulletin, "events"@) == Some(events),
    ensures
        is_revoked(bulletin, discovery_did) <==> exists|i: int|
            0 <= i < events.len() && text_member(#[trigger] events[i], "subjectDid"@) == Some(
                discovery_did,
            ) && text_member(events[i], "eventType"@) == Some("DISCOVERY_NODE_REVOKED"@),
{
    if is_revoked(bulletin, discovery_did) {
        let i = choose|i: int|
            0 <= i < events.len() && is_event_about(
                #[trigger] events[i],
                discovery_did,
                "DISCOVERY_NODE_REVOKED"@,
            );
        assert(text_member(events[i], "subjectDid"@) == Some(discovery_did));
    }
    if exists|i: int|
        0 <= i < events.len() && text_member(#[trigger] events[i], "subjectDid"@) == Some(
            discovery_did,
        ) && text_member(events[i], "eventType"@) == Some("DISCOVERY_NODE_REVOKED"@) {
        let i = choose|i: int|
            0 <= i < events.len() && text_member(#[trigger] events[i], "subjectDid"@) == Some(
                discovery_did,
            ) && text_member(events[i], "eventType"@) == Some("DISCOVERY_NODE_REVOKED"@);
        assert(is_event_about(
            bulletin_events(bulletin)[i],
            discovery_did,
            "DISCOVERY_NODE_REVOKED"@,
        ));
    }
}

/// The last of some events that sets the domains of a node.
proof fn lemma_latest_domains_event(events: Seq<JsonValue>, discovery_did: Seq<char>, at: int)
    requires
        0 <= at < events.len(),
        is_event_about(events[at], discovery_did, "DISCOVERY_NODE_DOMAINS_UPDATED"@),
        forall|i: int|
            at < i < events.len() ==> !is_event_about(
                #[trigger] events[i],
                discovery_did,
                "DISCOVERY_NODE_DOMAINS_UPDATED"@,
            ),
    ensures
        latest_domains_event(events, discovery_did) == Some(events[at]),
    decreases events.len(),
{
    if at < events.len() - 1 {
        assert(!is_event_about(
            events[events.len() - 1],
            discovery_did,
            "DISCOVERY_NODE_DOMAINS_UPDATED"@,
        ));
        let rest = events.drop_last();
        assert forall|i: int| at < i < rest.len() implies !is_event_about(
            #[trigger] rest[i],
            discovery_did,
            "DISCOVERY_NODE_DOMAINS_UPDATED"@,
        ) by {
            assert(rest[i] == events[i]);
        }
        lemma_latest_domains_event(rest, discovery_did, at);
    }
}

/// No event sets the domains of a node.
proof fn lemma_no_domains_event(events: Seq<JsonValue>, discovery_did: Seq<char>)
    requires
        forall|i: int|
            0 <= i < events.len() ==> !is_event_about(
                #[trigger] events[i],
                discovery_did,
                "DISCOVERY_NODE_DOMAINS_UPDATED"@,
            ),
    ensures
        latest_domains_event(events, discovery_did) is None,
    decreases events.len(),
{
    if events.len() > 0 {
        let rest = events.drop_last();
        assert(events[events.len() - 1] == events.last());
        assert forall|i: int| 0 <= i < rest.len() implies !is_event_about(
            #[trigger] rest[i],
            discovery_did,
            "DISCOVERY_NODE_DOMAINS_UPDATED"@,
        ) by {
            assert(rest[i] == events[i]);
        }
        lemma_no_domains_event(rest, discovery_did);
    }
}

/// The texts among values of which all are texts.
proof fn lemma_texts_among(values: Seq<JsonValue>)
    requires
        forall|i: int| 0 <= i < values.len() ==> (#[trigger] values[i]) is Text,
    ensures
        texts_among(values).len() == values.len(),
        forall|i: int|
            0 <= i < values.len() ==> #[trigger] texts_among(values)[i] == values[i]->Text_0@,
    decreases values.len(),
{
    if values.len() > 0 {
        let rest = values.drop_last();
        assert(values[values.len() - 1] is Text);
        assert forall|i: int| 0 <= i < rest.len() implies (#[trigger] rest[i]) is Text by {
            assert(rest[i] == values[i]);
        }
        lemma_texts_among(rest);
        assert forall|i: int| 0 <= i < values.len() implies #[trigger] texts_among(values)[i]
            == values[i]->Text_0@ by {
            if i < rest.len() {
                assert(texts_among(rest)[i] == rest[i]->Text_0@);
            }
        }
    }
}

/// The last event that names a node and updates its domains sets them, one for
/// one as it lists them, whatever earlier events say.
pub proof fn law_last_update_sets_the_domains(
    bulletin: JsonValue,
    events: Seq<JsonValue>,
    discovery_did: Seq<char>,
    at: int,
    payload: JsonValue,
    values: Seq<JsonValue>,
)
    requires
        array_member(bulletin, "events"@) == Some(events),
        0 <= at < events.len(),
        text_member(events[at], "subjectDid"@) == Some(discovery_did),
        text_member(events[at], "eventType"@) == Some("DISCOVERY_NODE_DOMAINS_UPDATED"@),
        forall|i: int|
            at < i < events.len() ==> text_member(#[trigger] events[i], "subjectDid"@) != Some(
                discovery_did,
            ) || text_member(events[i], "eventType"@) != Some("DISCOVERY_NODE_DOMAINS_UPDATED"@),
        member(events[at], "payload"@) == Some(payload),
        array_member(payload, "authorizedDomains"@) == Some(values),
        forall|i: int| 0 <= i < values.len() ==> (#[trigger] values[i]) is Text,
    ensures
        bulletin_domains(bulletin, discovery_did).len() == values.len(),
        forall|i: int|
            0 <= i < values.len() ==> #[trigger] bulletin_domains(bulletin, discovery_did)[i]
                == values[i]->Text_0@,
{
    lemma_latest_domains_event(events, discovery_did, at);
    lemma_texts_among(values);
}

/// A node that no event of the bulletin gives domains has none.
pub proof fn law_no_update_grants_no_domain(bulletin: JsonValue, discovery_did: Seq<char>)
    requires
        forall|i: int|
            0 <= i < bulletin_events(bulletin).len() ==> text_member(
                #[trigger] bulletin_events(bulletin)[i],
                "subjectDid"@,
            ) != Some(discovery_did),
    ensures
        bulletin_domains(bulletin, discovery_did) == Seq::<Seq<char>>::empty(),
        !is_revoked(bulletin, discovery_did),
{
    let events = bulletin_events(bulletin);
    assert forall|i: int| 0 <= i < events.len() implies !is_event_about(
        #[trigger] events[i],
        discovery_did,
        "DISCOVERY_NODE_DOMAINS_UPDATED"@,
    ) by {
        assert(text_member(events[i], "subjectDid"@) != Some(discovery_did));
    }
    lemma_no_domains_event(events, discovery_did);
}

} // verus!
