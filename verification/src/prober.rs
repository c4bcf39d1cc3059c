//! Service detection: decoding probe payloads, choosing the probes relevant
//! to a port, matching a response against a probe's rules, and filling the
//! version fields from regex capture groups.

use vstd::prelude::*;

use crate::probe::{MatchEntry, NmapProbes, ProbeEntry};
use crate::text::{dec_bytes, dec_digits, decode_escapes, decode_escapes_bytes, replace_all,
    replace_spec};
use vstd::string::StringSliceAdditionalSpecFns;

verus! {

/// What `regex::Regex::captures` yields for a pattern and a subject, both
/// handed to the engine as UTF-8 text (lossily decoded from these bytes):
/// nothing when the pattern does not compile or does not match, otherwise
/// the capture groups — group 0 the whole match, a group absent when it did
/// not participate. A function of the two byte strings alone.
pub uninterp spec fn regex_captures_of(pattern: Seq<u8>, text: Seq<u8>) -> Option<
    Seq<Option<Seq<u8>>>,
>;

/// Relies on `regex::Regex::new` and `regex::Regex::captures`: compiles the
/// pattern and returns the first match's capture groups, `None` on a compile
/// failure or when nothing matches.
#[verifier::external_body]
fn regex_captures(pattern: &[u8], text: &[u8]) -> (r: Option<Vec<Option<Vec<u8>>>>)
    ensures
        r.deep_view() == regex_captures_of(pattern@, text@),
{
    let pat = String::from_utf8_lossy(pattern);
    let txt = String::from_utf8_lossy(text);
    let re = match regex::Regex::new(&pat) {
        Ok(re) => re,
        Err(_) => return None,
    };
    let caps = re.captures(&txt)?;
    Some((0..caps.len()).map(|i| caps.get(i).map(|m| m.as_str().as_bytes().to_vec())).collect())
}

/// What a successful match says about the service behind a port. The
/// confidence is a policy constant: 90 for a hard match, 50 for a soft match.
#[derive(Debug, Clone, PartialEq, Eq)]
pub struct ServiceInfo {
    pub service: Vec<u8>,
    pub version: Option<Vec<u8>>,
    pub product: Option<Vec<u8>>,
    pub extra_info: Option<Vec<u8>>,
    pub hostname: Option<Vec<u8>>,
    pub os_info: Option<Vec<u8>>,
    pub device_type: Option<Vec<u8>>,
    pub cpe: Option<Vec<u8>>,
    pub confidence: u8,
}

/// Performs banner grabbing and service detection for ports of one host.
/// Holds the probe database, when one was loaded, and the per-attempt
/// timeout; without a database, detection degrades to banner grabbing.
pub struct Prober {
    pub probes: Option<NmapProbes>,
    pub timeout_ms: u64,
}

impl Prober {
    pub fn new() -> (p: Prober)
        ensures
            p.probes is None,
            p.timeout_ms == 5000,
    {
        Prober { probes: None, timeout_ms: 5000 }
    }

    /// Sets the connection timeout in milliseconds.
    pub fn set_timeout(&mut self, timeout_ms: u64)
        ensures
            final(self).timeout_ms == timeout_ms,
            final(self).probes == old(self).probes,
    {
        self.timeout_ms = timeout_ms;
    }

    /// Installs a probe database; detection uses it from then on.
    pub fn set_probes(&mut self, probes: NmapProbes)
        ensures
            final(self).probes == Some(probes),
            final(self).timeout_ms == old(self).timeout_ms,
    {
        self.probes = Some(probes);
    }

    /// Decodes the escape sequences of a probe string into payload bytes.
    pub fn decode_probe_string(&self, probe_string: &str) -> (r: Vec<u8>)
        ensures
            r@ == decode_escapes(probe_string.spec_bytes()),
    {
        decode_escapes_bytes(probe_string.as_bytes())
    }
}

/// The placeholder `$N` for capture group `i`.
pub open spec fn dollar_tag(i: nat) -> Seq<u8> {
    seq![36u8] + dec_digits(i)
}

/// The text capture group `i` contributes to a substitution: its matched
/// text, or nothing when the group did not participate.
pub open spec fn group_text(caps: Seq<Option<Seq<u8>>>, i: int) -> Seq<u8> {
    if 0 <= i < caps.len() {
        match caps[i] {
            Some(t) => t,
            None => Seq::empty(),
        }
    } else {
        Seq::empty()
    }
}

/// The template after the placeholders from `$i` up to the last capture
/// group have been substituted, one after the other; `$N` beyond the group
/// count stays literal.
pub open spec fn subst_from(t: Seq<u8>, caps: Seq<Option<Seq<u8>>>, i: int) -> Seq<u8>
    decreases caps.len() - i,
{
    if 1 <= i < caps.len() {
        subst_from(replace_spec(t, dollar_tag(i as nat), group_text(caps, i)), caps, i + 1)
    } else {
        t
    }
}

/// A version-field template with every `$1..$N` placeholder replaced by its
/// capture group's text.
pub open spec fn substitute_spec(t: Seq<u8>, caps: Seq<Option<Seq<u8>>>) -> Seq<u8> {
    subst_from(t, caps, 1)
}

/// Substitutes the capture groups into one version-field template.
fn substitute(template: &[u8], caps: &Vec<Option<Vec<u8>>>) -> (r: Vec<u8>)
    ensures
        r@ == substitute_spec(template@, caps.deep_view()),
{
    let ghost cv = caps.deep_view();
    let mut cur: Vec<u8> = vstd::slice::slice_to_vec(template);
    let mut i: usize = 1;
    while i < caps.len()
        invariant
            1 <= i,
            caps.len() < i || i <= caps.len(),
            cv == caps.deep_view(),
            substitute_spec(template@, cv) == subst_from(cur@, cv, i as int),
        decreases caps@.len() - i,
    {
        let mut tag: Vec<u8> = Vec::new();
        tag.push(36);
        let digits = dec_bytes(i as u64);
        crate::text::push_all(&mut tag, digits.as_slice());
        proof {
            assert(tag@ =~= dollar_tag(i as nat));
        }
        let rep: Vec<u8> = match &caps[i] {
            Some(t) => {
                proof {
                    assert(cv[i as int] == caps@[i as int].deep_view());
                    assert(t.deep_view() =~= t@);
                }
                vstd::slice::slice_to_vec(t.as_slice())
            },
            None => {
                proof {
                    assert(cv[i as int] == caps@[i as int].deep_view());
                }
                Vec::new()
            },
        };
        proof {
            assert(rep@ == group_text(cv, i as int));
            assert(dollar_tag(i as nat).len() > 0);
        }
        let stepped = replace_all(cur.as_slice(), tag.as_slice(), rep.as_slice());
        cur = stepped;
        i = i + 1;
    }
    proof {
        assert(subst_from(cur@, cv, i as int) == cur@);
    }
    cur
}

/// An optional template, substituted when present.
pub open spec fn subst_opt(t: Option<Seq<u8>>, caps: Seq<Option<Seq<u8>>>) -> Option<Seq<u8>> {
    match t {
        Some(x) => Some(substitute_spec(x, caps)),
        None => None,
    }
}

fn sub_opt_field(f: &Option<Vec<u8>>, caps: &Vec<Option<Vec<u8>>>) -> (r: Option<Vec<u8>>)
    ensures
        r.deep_view() == subst_opt(f.deep_view(), caps.deep_view()),
{
    match f {
        Some(t) => {
            let v = substitute(t.as_slice(), caps);
            proof {
                assert(t.deep_view() =~= t@);
                assert(v.deep_view() =~= v@);
            }
            Some(v)
        },
        None => None,
    }
}

/// Whether `si` is exactly what rule `entry` yields from capture groups
/// `caps` at the given confidence: the rule's service name, and every present
/// version-field template substituted.
pub open spec fn service_info_matches(
    si: ServiceInfo,
    entry: MatchEntry,
    caps: Seq<Option<Seq<u8>>>,
    confidence: u8,
) -> bool {
    &&& si.service@ == entry.service@
    &&& si.confidence == confidence
    &&& si.product.deep_view() == subst_opt(entry.version_info.product.deep_view(), caps)
    &&& si.version.deep_view() == subst_opt(entry.version_info.version.deep_view(), caps)
    &&& si.extra_info.deep_view() == subst_opt(entry.version_info.info.deep_view(), caps)
    &&& si.hostname.deep_view() == subst_opt(entry.version_info.hostname.deep_view(), caps)
    &&& si.os_info.deep_view() == subst_opt(entry.version_info.os_info.deep_view(), caps)
    &&& si.device_type.deep_view() == subst_opt(entry.version_info.device_type.deep_view(), caps)
    &&& si.cpe.deep_view() == subst_opt(entry.version_info.cpe.deep_view(), caps)
}

/// The first rule at or after `i` whose pattern matches the response.
pub open spec fn first_match_in(ms: Seq<MatchEntry>, resp: Seq<u8>, i: int) -> Option<int>
    decreases ms.len() - i,
{
    if i < 0 || i >= ms.len() {
        None
    } else if regex_captures_of(ms[i].pattern@, resp) is Some {
        Some(i)
    } else {
        first_match_in(ms, resp, i + 1)
    }
}

/// Which rule of a probe wins on a response: the first hard match when any
/// hard rule matches, otherwise the first soft match, otherwise none.
pub open spec fn probe_winner(p: ProbeEntry, resp: Seq<u8>) -> Option<(bool, int)> {
    match first_match_in(p.matches@, resp, 0) {
        Some(i) => Some((true, i)),
        None => match first_match_in(p.soft_matches@, resp, 0) {
            Some(i) => Some((false, i)),
            None => None,
        },
    }
}

impl Prober {
    /// Matches a response against one rule: on a regex match, the rule's
    /// service name and substituted version fields, at confidence 90.
    pub fn match_response(&self, response: &[u8], match_entry: &MatchEntry) -> (r: Option<
        ServiceInfo,
    >)
        ensures
            match regex_captures_of(match_entry.pattern@, response@) {
                Some(caps) => r is Some && service_info_matches(r->0, *match_entry, caps, 90),
                None => r is None,
            },
    {
        match regex_captures(match_entry.pattern.as_slice(), response) {
            Some(caps) => {
                let service = vstd::slice::slice_to_vec(match_entry.service.as_slice());
                let si = ServiceInfo {
                    service,
                    version: sub_opt_field(&match_entry.version_info.version, &caps),
                    product: sub_opt_field(&match_entry.version_info.product, &caps),
                    extra_info: sub_opt_field(&match_entry.version_info.info, &caps),
                    hostname: sub_opt_field(&match_entry.version_info.hostname, &caps),
                    os_info: sub_opt_field(&match_entry.version_info.os_info, &caps),
                    device_type: sub_opt_field(&match_entry.version_info.device_type, &caps),
                    cpe: sub_opt_field(&match_entry.version_info.cpe, &caps),
                    confidence: 90,
                };
                proof {
                    assert(caps.deep_view() == regex_captures_of(
                        match_entry.pattern@,
                        response@,
                    )->0);
                }
                Some(si)
            },
            None => None,
        }
    }

    /// Evaluates a rule list in order: the first rule whose pattern matches
    /// the response wins, at the given confidence.
    fn match_entries(&self, response: &[u8], entries: &Vec<MatchEntry>, confidence: u8) -> (r:
        Option<ServiceInfo>)
        ensures
            match first_match_in(entries@, response@, 0) {
                Some(i) => r is Some && service_info_matches(
                    r->0,
                    entries@[i],
                    regex_captures_of(entries@[i].pattern@, response@)->0,
                    confidence,
                ),
                None => r is None,
            },
    {
        let mut k: usize = 0;
        while k < entries.len()
            invariant
                0 <= k <= entries@.len(),
                first_match_in(entries@, response@, 0) == first_match_in(
                    entries@,
                    response@,
                    k as int,
                ),
            decreases entries@.len() - k,
        {
            match self.match_response(response, &entries[k]) {
                Some(si) => {
                    let mut adjusted = si;
                    adjusted.confidence = confidence;
                    return Some(adjusted);
                },
                None => {},
            }
            k = k + 1;
        }
        None
    }

    /// Evaluates one probe's rules against a response: hard matches first, in
    /// file order, at confidence 90; then soft matches at confidence 50.
    pub fn match_probe(&self, response: &[u8], probe: &ProbeEntry) -> (r: Option<ServiceInfo>)
        ensures
            match probe_winner(*probe, response@) {
                Some((hard, i)) => {
                    &&& r is Some
                    &&& hard ==> service_info_matches(
                        r->0,
                        probe.matches@[i],
                        regex_captures_of(probe.matches@[i].pattern@, response@)->0,
                        90,
                    )
                    &&& !hard ==> service_info_matches(
                        r->0,
                        probe.soft_matches@[i],
                        regex_captures_of(probe.soft_matches@[i].pattern@, response@)->0,
                        50,
                    )
                },
                None => r is None,
            },
    {
        match self.match_entries(response, &probe.matches, 90) {
            Some(si) => Some(si),
            None => self.match_entries(response, &probe.soft_matches, 50),
        }
    }
}

/// Match precedence within one probe: when any hard rule matches the
/// response, the winner is the first hard rule that does, and soft rules are
/// not consulted; a soft rule wins only when no hard rule matches.
pub proof fn lemma_match_precedence(p: ProbeEntry, resp: Seq<u8>)
    ensures
        (exists|i: int|
            0 <= i < p.matches@.len() && regex_captures_of(
                #[trigger] p.matches@[i].pattern@,
                resp,
            ) is Some) ==> {
            &&& first_match_in(p.matches@, resp, 0) is Some
            &&& probe_winner(p, resp) == Some((true, first_match_in(p.matches@, resp, 0)->0))
        },
        (forall|i: int|
            0 <= i < p.matches@.len() ==> regex_captures_of(
                #[trigger] p.matches@[i].pattern@,
                resp,
            ) is None) ==> match first_match_in(p.soft_matches@, resp, 0) {
            Some(j) => probe_winner(p, resp) == Some((false, j)),
            None => probe_winner(p, resp) is None,
        },
{
    lemma_first_match_characterization(p.matches@, resp, 0);
    lemma_first_match_characterization(p.soft_matches@, resp, 0);
}

/// `first_match_in` finds a matching rule exactly when one exists, and the
/// one it finds is the earliest.
proof fn lemma_first_match_characterization(ms: Seq<MatchEntry>, resp: Seq<u8>, i: int)
    requires
        0 <= i <= ms.len(),
    ensures
        match first_match_in(ms, resp, i) {
            Some(j) => i <= j < ms.len() && regex_captures_of(ms[j].pattern@, resp) is Some
                && forall|k: int|
                i <= k < j ==> regex_captures_of(#[trigger] ms[k].pattern@, resp) is None,
            None => forall|k: int|
                i <= k < ms.len() ==> regex_captures_of(#[trigger] ms[k].pattern@, resp) is None,
        },
    decreases ms.len() - i,
{
    if i < ms.len() && !(regex_captures_of(ms[i].pattern@, resp) is Some) {
        lemma_first_match_characterization(ms, resp, i + 1);
    }
}

/// Whether a probe is relevant to a port: its protocol is TCP and one of its
/// port-spec strings contains the port's decimal text, or that text behind a
/// `T:` marker, as a substring.
pub open spec fn probe_is_relevant(p: ProbeEntry, port: u16) -> bool {
    &&& p.protocol@ == ("TCP").spec_bytes()
    &&& exists|j: int|
        0 <= j < p.ports@.len() && (crate::text::contains_seq(
            #[trigger] p.ports@[j]@,
            dec_digits(port as nat),
        ) || crate::text::contains_seq(p.ports@[j]@, ("T:").spec_bytes() + dec_digits(port as nat)))
}

/// Whether a probe is one of the common fallbacks tried when no port-specific
/// probe is relevant.
pub open spec fn is_common_fallback(p: ProbeEntry) -> bool {
    &&& p.protocol@ == ("TCP").spec_bytes()
    &&& (p.name@ == ("GetRequest").spec_bytes() || p.name@ == ("GenericLines").spec_bytes())
}

/// The indices at or after `i` of the probes relevant to `port`, in order.
pub open spec fn relevant_from(ps: Seq<ProbeEntry>, port: u16, i: int) -> Seq<int>
    decreases ps.len() - i,
{
    if i < 0 || i >= ps.len() {
        Seq::empty()
    } else if probe_is_relevant(ps[i], port) {
        seq![i] + relevant_from(ps, port, i + 1)
    } else {
        relevant_from(ps, port, i + 1)
    }
}

/// The indices at or after `i` of the common fallback probes, in order.
pub open spec fn fallback_from(ps: Seq<ProbeEntry>, i: int) -> Seq<int>
    decreases ps.len() - i,
{
    if i < 0 || i >= ps.len() {
        Seq::empty()
    } else if is_common_fallback(ps[i]) {
        seq![i] + fallback_from(ps, i + 1)
    } else {
        fallback_from(ps, i + 1)
    }
}

/// The first index at or after `i` of the NULL probe for TCP: the pure
/// banner read tried before anything else.
pub open spec fn null_probe_at(ps: Seq<ProbeEntry>, i: int) -> Option<int>
    decreases ps.len() - i,
{
    if i < 0 || i >= ps.len() {
        None
    } else if ps[i].name@ == ("NULL").spec_bytes() && ps[i].protocol@ == ("TCP").spec_bytes() {
        Some(i)
    } else {
        null_probe_at(ps, i + 1)
    }
}

/// The probes detection tries against a port, in order: the NULL probe first
/// when the database has one, then the port's relevant probes, or the common
/// fallbacks when none is relevant.
pub open spec fn probe_plan_spec(ps: Seq<ProbeEntry>, port: u16) -> Seq<int> {
    let base = if relevant_from(ps, port, 0).len() > 0 {
        relevant_from(ps, port, 0)
    } else {
        fallback_from(ps, 0)
    };
    match null_probe_at(ps, 0) {
        Some(i) => seq![i] + base,
        None => base,
    }
}

/// The winning rule over a plan of probes: the first planned probe with a
/// winning rule decides; an index outside the database is passed over.
pub open spec fn plan_winner(ps: Seq<ProbeEntry>, plan: Seq<int>, resp: Seq<u8>, k: int) -> Option<
    (int, bool, int),
>
    decreases plan.len() - k,
{
    if k < 0 || k >= plan.len() {
        None
    } else {
        let pi = plan[k];
        if 0 <= pi < ps.len() {
            match probe_winner(ps[pi], resp) {
                Some((hard, i)) => Some((pi, hard, i)),
                None => plan_winner(ps, plan, resp, k + 1),
            }
        } else {
            plan_winner(ps, plan, resp, k + 1)
        }
    }
}

/// Whether any port-spec string of `specs` contains `pstr` or `tstr` as a
/// substring.
fn ports_match(specs: &Vec<Vec<u8>>, pstr: &[u8], tstr: &[u8]) -> (r: bool)
    ensures
        r == (exists|j: int|
            0 <= j < specs@.len() && (crate::text::contains_seq(#[trigger] specs@[j]@, pstr@)
                || crate::text::contains_seq(specs@[j]@, tstr@))),
{
    let mut j: usize = 0;
    while j < specs.len()
        invariant
            0 <= j <= specs@.len(),
            forall|m: int|
                0 <= m < j ==> !crate::text::contains_seq(#[trigger] specs@[m]@, pstr@)
                    && !crate::text::contains_seq(specs@[m]@, tstr@),
        decreases specs@.len() - j,
    {
        if crate::text::contains_bytes(specs[j].as_slice(), pstr) || crate::text::contains_bytes(
            specs[j].as_slice(),
            tstr,
        ) {
            return true;
        }
        j = j + 1;
    }
    false
}

/// The index of the NULL probe for TCP, when the database has one.
fn find_null_probe(probes: &NmapProbes) -> (r: Option<usize>)
    ensures
        match null_probe_at(probes.probes@, 0) {
            Some(j) => r is Some && r->0 as int == j,
            None => r is None,
        },
        r is Some ==> (r->0 as int) < probes.probes@.len(),
{
    let ghost ps = probes.probes@;
    let mut i: usize = 0;
    while i < probes.probes.len()
        invariant
            0 <= i <= ps.len(),
            ps == probes.probes@,
            null_probe_at(ps, 0) == null_probe_at(ps, i as int),
        decreases ps.len() - i,
    {
        let p = &probes.probes[i];
        if crate::text::bytes_eq(p.name.as_slice(), "NULL".as_bytes()) && crate::text::bytes_eq(
            p.protocol.as_slice(),
            "TCP".as_bytes(),
        ) {
            proof {
                assert(null_probe_at(ps, i as int) == Some(i as int));
            }
            return Some(i);
        }
        i = i + 1;
    }
    None
}

impl Prober {
    /// The probes relevant to `port`, as indices into the database in file
    /// order; when none is relevant, the common fallback probes instead.
    pub fn get_relevant_probes(&self, probes: &NmapProbes, port: u16) -> (r: Vec<usize>)
        ensures
            r@.map_values(|u: usize| u as int) == {
                if relevant_from(probes.probes@, port, 0).len() > 0 {
                    relevant_from(probes.probes@, port, 0)
                } else {
                    fallback_from(probes.probes@, 0)
                }
            },
            forall|k: int| 0 <= k < r@.len() ==> (r@[k] as int) < probes.probes@.len(),
    {
        let ghost ps = probes.probes@;
        let port_str = dec_bytes(port as u64);
        let mut t_str: Vec<u8> = vstd::slice::slice_to_vec("T:".as_bytes());
        crate::text::push_all(&mut t_str, port_str.as_slice());
        proof {
            assert(t_str@ == ("T:").spec_bytes() + dec_digits(port as nat));
        }
        let mut relevant: Vec<usize> = Vec::new();
        let mut i: usize = 0;
        proof {
            assert(relevant@.map_values(|u: usize| u as int) =~= Seq::<int>::empty());
            assert(Seq::<int>::empty() + relevant_from(ps, port, 0) =~= relevant_from(ps, port, 0));
        }
        while i < probes.probes.len()
            invariant
                0 <= i <= ps.len(),
                ps == probes.probes@,
                port_str@ == dec_digits(port as nat),
                t_str@ == ("T:").spec_bytes() + dec_digits(port as nat),
                relevant_from(ps, port, 0) == relevant@.map_values(|u: usize| u as int)
                    + relevant_from(ps, port, i as int),
                forall|k: int| 0 <= k < relevant@.len() ==> (relevant@[k] as int) < ps.len(),
            decreases ps.len() - i,
        {
            let p = &probes.probes[i];
            let is_rel = crate::text::bytes_eq(p.protocol.as_slice(), "TCP".as_bytes())
                && ports_match(&p.ports, port_str.as_slice(), t_str.as_slice());
            let ghost rm = relevant@.map_values(|u: usize| u as int);
            proof {
                assert(is_rel == probe_is_relevant(ps[i as int], port));
            }
            if is_rel {
                relevant.push(i);
                proof {
                    assert(relevant@.map_values(|u: usize| u as int) =~= rm.push(i as int));
                    assert(rm + (seq![i as int] + relevant_from(ps, port, i + 1)) =~= rm.push(
                        i as int,
                    ) + relevant_from(ps, port, i + 1));
                }
            }
            i = i + 1;
        }
        proof {
            assert(relevant_from(ps, port, i as int) =~= Seq::<int>::empty());
            assert(relevant@.map_values(|u: usize| u as int) + Seq::<int>::empty()
                =~= relevant@.map_values(|u: usize| u as int));
        }
        if relevant.len() > 0 {
            return relevant;
        }
        let mut fallback: Vec<usize> = Vec::new();
        let mut i: usize = 0;
        proof {
            assert(fallback@.map_values(|u: usize| u as int) =~= Seq::<int>::empty());
            assert(Seq::<int>::empty() + fallback_from(ps, 0) =~= fallback_from(ps, 0));
            assert(relevant@.map_values(|u: usize| u as int).len() == 0);
        }
        while i < probes.probes.len()
            invariant
                0 <= i <= ps.len(),
                ps == probes.probes@,
                fallback_from(ps, 0) == fallback@.map_values(|u: usize| u as int) + fallback_from(
                    ps,
                    i as int,
                ),
                forall|k: int| 0 <= k < fallback@.len() ==> (fallback@[k] as int) < ps.len(),
            decreases ps.len() - i,
        {
            let p = &probes.probes[i];
            let is_fb = crate::text::bytes_eq(p.protocol.as_slice(), "TCP".as_bytes()) && (
            crate::text::bytes_eq(p.name.as_slice(), "GetRequest".as_bytes())
                || crate::text::bytes_eq(p.name.as_slice(), "GenericLines".as_bytes()));
            let ghost fm = fallback@.map_values(|u: usize| u as int);
            if is_fb {
                fallback.push(i);
                proof {
                    assert(fallback@.map_values(|u: usize| u as int) =~= fm.push(i as int));
                    assert(fm + (seq![i as int] + fallback_from(ps, i + 1)) =~= fm.push(i as int)
                        + fallback_from(ps, i + 1));
                }
            }
            i = i + 1;
        }
        proof {
            assert(fallback_from(ps, i as int) =~= Seq::<int>::empty());
            assert(fallback@.map_values(|u: usize| u as int) + Seq::<int>::empty()
                =~= fallback@.map_values(|u: usize| u as int));
        }
        fallback
    }

    /// The probes detection tries against a port, in order, as indices into
    /// the database: the NULL probe first when the database has one, then
    /// the probes relevant to the port, or the common fallbacks when none
    /// is relevant.
    pub fn probe_plan(&self, probes: &NmapProbes, port: u16) -> (r: Vec<usize>)
        ensures
            r@.map_values(|u: usize| u as int) == probe_plan_spec(probes.probes@, port),
            forall|k: int| 0 <= k < r@.len() ==> (r@[k] as int) < probes.probes@.len(),
    {
        let ghost ps = probes.probes@;
        let mut plan: Vec<usize> = Vec::new();
        let ghost nullidx = null_probe_at(ps, 0);
        match find_null_probe(probes) {
            Some(i) => {
                plan.push(i);
                proof {
                    assert(nullidx == Some(i as int));
                }
            },
            None => {
                proof {
                    assert(nullidx is None);
                }
            },
        }
        let ghost planned_head = plan@.map_values(|u: usize| u as int);
        let rel = self.get_relevant_probes(probes, port);
        let mut k: usize = 0;
        while k < rel.len()
            invariant
                0 <= k <= rel@.len(),
                plan@.map_values(|u: usize| u as int) == planned_head + rel@.map_values(
                    |u: usize| u as int,
                ).take(k as int),
                forall|m: int| 0 <= m < rel@.len() ==> (rel@[m] as int) < ps.len(),
                ps == probes.probes@,
                forall|m: int| 0 <= m < plan@.len() ==> (plan@[m] as int) < ps.len(),
                planned_head.len() <= 1,
                forall|m: int| 0 <= m < planned_head.len() ==> planned_head[m] < ps.len(),
            decreases rel@.len() - k,
        {
            let ghost pm = plan@.map_values(|u: usize| u as int);
            plan.push(rel[k]);
            proof {
                assert(plan@.map_values(|u: usize| u as int) =~= pm.push(rel@[k as int] as int));
                assert(rel@.map_values(|u: usize| u as int).take(k + 1) =~= rel@.map_values(
                    |u: usize| u as int,
                ).take(k as int).push(rel@[k as int] as int));
                assert(pm.push(rel@[k as int] as int) =~= planned_head + rel@.map_values(
                    |u: usize| u as int,
                ).take(k + 1));
            }
            k = k + 1;
        }
        proof {
            assert(rel@.map_values(|u: usize| u as int).take(k as int) =~= rel@.map_values(
                |u: usize| u as int,
            ));
            assert(plan@.map_values(|u: usize| u as int) =~= probe_plan_spec(ps, port));
        }
        plan
    }

    /// Service detection against one response read from a port: tries the
    /// NULL probe first when the database has one, then the probes relevant
    /// to the port (or the common fallbacks), and within each probe the hard
    /// rules before the soft ones; the first match decides.
    pub fn detect_service(&self, response: &[u8], port: u16, probes: &NmapProbes) -> (r: Option<
        ServiceInfo,
    >)
        ensures
            match plan_winner(probes.probes@, probe_plan_spec(probes.probes@, port), response@, 0) {
                Some((pi, hard, i)) => {
                    &&& r is Some
                    &&& hard ==> service_info_matches(
                        r->0,
                        probes.probes@[pi].matches@[i],
                        regex_captures_of(probes.probes@[pi].matches@[i].pattern@, response@)->0,
                        90,
                    )
                    &&& !hard ==> service_info_matches(
                        r->0,
                        probes.probes@[pi].soft_matches@[i],
                        regex_captures_of(
                            probes.probes@[pi].soft_matches@[i].pattern@,
                            response@,
                        )->0,
                        50,
                    )
                },
                None => r is None,
            },
    {
        let ghost ps = probes.probes@;
        let plan = self.probe_plan(probes, port);
        let ghost planseq = plan@.map_values(|u: usize| u as int);
        let mut w: usize = 0;
        while w < plan.len()
            invariant
                0 <= w <= plan@.len(),
                ps == probes.probes@,
                planseq == plan@.map_values(|u: usize| u as int),
                planseq == probe_plan_spec(ps, port),
                forall|m: int| 0 <= m < plan@.len() ==> (plan@[m] as int) < ps.len(),
                plan_winner(ps, planseq, response@, 0) == plan_winner(
                    ps,
                    planseq,
                    response@,
                    w as int,
                ),
            decreases plan@.len() - w,
        {
            let pi = plan[w];
            let outcome = self.match_probe(response, &probes.probes[pi]);
            proof {
                assert(planseq[w as int] == pi as int);
            }
            match outcome {
                Some(si) => {
                    return Some(si);
                },
                None => {},
            }
            w = w + 1;
        }
        None
    }
}

} // verus!
