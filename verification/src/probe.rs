//! The probe database: the in-memory model of the nmap-style probe grammar.
//! A database holds an exclude list and an ordered list of probes; each probe
//! carries a decoded payload and ordered match / soft-match rules.
//!
//! All text is kept as raw bytes: the grammar is line-oriented byte text, and
//! responses that patterns are matched against are byte buffers.

use vstd::prelude::*;

use crate::text::{
    bytes_eq, decode_escapes, decode_escapes_bytes, find_byte, find_idx, join_from,
    join_sp, lines_bytes, lines_of, parse_dec_bytes, parse_dec_spec, rfind_byte_end, rfind_end,
    split_ws, split_ws_bytes, trim_bytes, trim_spec,
};
use vstd::string::StringSliceAdditionalSpecFns;

verus! {

/// One version-field template set of a match rule: the `p/v/i/h/o/d/cpe`
/// field tags of the grammar, each an optional template that may hold `$N`
/// capture placeholders.
#[derive(Debug, Clone, PartialEq, Eq)]
pub struct VersionInfo {
    pub product: Option<Vec<u8>>,
    pub version: Option<Vec<u8>>,
    pub info: Option<Vec<u8>>,
    pub hostname: Option<Vec<u8>>,
    pub os_info: Option<Vec<u8>>,
    pub device_type: Option<Vec<u8>>,
    pub cpe: Option<Vec<u8>>,
}

impl VersionInfo {
    /// A template set with every field absent.
    pub fn empty() -> (v: VersionInfo)
        ensures
            v == VersionInfo::empty_spec(),
    {
        VersionInfo {
            product: None,
            version: None,
            info: None,
            hostname: None,
            os_info: None,
            device_type: None,
            cpe: None,
        }
    }

    pub open spec fn empty_spec() -> VersionInfo {
        VersionInfo {
            product: None,
            version: None,
            info: None,
            hostname: None,
            os_info: None,
            device_type: None,
            cpe: None,
        }
    }
}

/// One match or soft-match rule: a service name, a regex pattern, and the
/// version-field templates.
#[derive(Debug, Clone, PartialEq, Eq)]
pub struct MatchEntry {
    pub service: Vec<u8>,
    pub pattern: Vec<u8>,
    pub version_info: VersionInfo,
}

/// One probe of the database: protocol and name, the payload to send (escape
/// sequences already decoded), and its rules and timing hints in file order.
#[derive(Debug, Clone, PartialEq, Eq)]
pub struct ProbeEntry {
    pub protocol: Vec<u8>,
    pub name: Vec<u8>,
    pub probe_payload: Vec<u8>,
    pub no_payload: bool,
    pub matches: Vec<MatchEntry>,
    pub soft_matches: Vec<MatchEntry>,
    pub ports: Vec<Vec<u8>>,
    pub ssl_ports: Vec<Vec<u8>>,
    pub total_wait_ms: Option<u32>,
    pub tcp_wrapped_ms: Option<u32>,
    pub rarity: Option<u8>,
    pub fallback: Option<Vec<u8>>,
}

/// The whole probe database: recorded exclude specs and the probes in file
/// order. Built once, then read-only for the rest of the run.
#[derive(Debug, Clone, PartialEq, Eq)]
pub struct NmapProbes {
    pub excludes: Vec<Vec<u8>>,
    pub probes: Vec<ProbeEntry>,
}

/// The version-field tags of the grammar.
#[derive(Debug, Clone, Copy, PartialEq, Eq, Structural)]
pub enum FieldTag {
    Product,
    Version,
    Info,
    Hostname,
    Os,
    Device,
    Cpe,
}

/// The mathematical model of a `VersionInfo`.
#[verifier::ext_equal]
pub struct VersionInfoModel {
    pub product: Option<Seq<u8>>,
    pub version: Option<Seq<u8>>,
    pub info: Option<Seq<u8>>,
    pub hostname: Option<Seq<u8>>,
    pub os_info: Option<Seq<u8>>,
    pub device_type: Option<Seq<u8>>,
    pub cpe: Option<Seq<u8>>,
}

/// The mathematical model of a `MatchEntry`.
#[verifier::ext_equal]
pub struct MatchEntryModel {
    pub service: Seq<u8>,
    pub pattern: Seq<u8>,
    pub version_info: VersionInfoModel,
}

/// The mathematical model of a `ProbeEntry`.
#[verifier::ext_equal]
pub struct ProbeEntryModel {
    pub protocol: Seq<u8>,
    pub name: Seq<u8>,
    pub probe_payload: Seq<u8>,
    pub no_payload: bool,
    pub matches: Seq<MatchEntryModel>,
    pub soft_matches: Seq<MatchEntryModel>,
    pub ports: Seq<Seq<u8>>,
    pub ssl_ports: Seq<Seq<u8>>,
    pub total_wait_ms: Option<u32>,
    pub tcp_wrapped_ms: Option<u32>,
    pub rarity: Option<u8>,
    pub fallback: Option<Seq<u8>>,
}

/// The mathematical model of an `NmapProbes` database.
#[verifier::ext_equal]
pub struct NmapProbesModel {
    pub excludes: Seq<Seq<u8>>,
    pub probes: Seq<ProbeEntryModel>,
}

impl VersionInfo {
    pub open spec fn model(self) -> VersionInfoModel {
        VersionInfoModel {
            product: self.product.deep_view(),
            version: self.version.deep_view(),
            info: self.info.deep_view(),
            hostname: self.hostname.deep_view(),
            os_info: self.os_info.deep_view(),
            device_type: self.device_type.deep_view(),
            cpe: self.cpe.deep_view(),
        }
    }

    pub open spec fn empty_model() -> VersionInfoModel {
        VersionInfoModel {
            product: None,
            version: None,
            info: None,
            hostname: None,
            os_info: None,
            device_type: None,
            cpe: None,
        }
    }
}

impl MatchEntry {
    pub open spec fn model(self) -> MatchEntryModel {
        MatchEntryModel {
            service: self.service@,
            pattern: self.pattern@,
            version_info: self.version_info.model(),
        }
    }
}

impl ProbeEntry {
    pub open spec fn model(self) -> ProbeEntryModel {
        ProbeEntryModel {
            protocol: self.protocol@,
            name: self.name@,
            probe_payload: self.probe_payload@,
            no_payload: self.no_payload,
            matches: self.matches@.map_values(|m: MatchEntry| m.model()),
            soft_matches: self.soft_matches@.map_values(|m: MatchEntry| m.model()),
            ports: self.ports.deep_view(),
            ssl_ports: self.ssl_ports.deep_view(),
            total_wait_ms: self.total_wait_ms,
            tcp_wrapped_ms: self.tcp_wrapped_ms,
            rarity: self.rarity,
            fallback: self.fallback.deep_view(),
        }
    }
}

impl NmapProbes {
    pub open spec fn model(self) -> NmapProbesModel {
        NmapProbesModel {
            excludes: self.excludes.deep_view(),
            probes: self.probes@.map_values(|p: ProbeEntry| p.model()),
        }
    }
}

/// The content between the first and last occurrence of the delimiter of a
/// `q|...|` probe string; anything not of that shape is kept whole.
pub open spec fn extract_probe_string(s: Seq<u8>) -> Seq<u8> {
    if s.len() > 2 && s[0] == 113 {
        let d = s[1];
        let start = find_idx(s, d);
        let endp = rfind_end(s, d);
        if start != endp - 1 {
            s.subrange(start + 1, endp - 1)
        } else {
            s
        }
    } else {
        s
    }
}

fn extract_delimited(s: &[u8], lead: u8) -> (r: Vec<u8>)
    requires
        s@.len() > 2,
        s@[0] == lead,
    ensures
        ({
            let start = find_idx(s@, s@[1]);
            let endp = rfind_end(s@, s@[1]);
            if start != endp - 1 {
                r@ == s@.subrange(start + 1, endp - 1)
            } else {
                r@ == s@
            }
        }),
{
    let d = s[1];
    let start = find_byte(s, d);
    let endp = rfind_byte_end(s, d);
    proof {
        crate::text::lemma_find_idx(s@, d);
        crate::text::lemma_rfind_end(s@, d);
        assert(s@[1] == d);
        assert(find_idx(s@, d) <= 1);
        assert(rfind_end(s@, d) >= 2);
        assert(find_idx(s@, d) <= rfind_end(s@, d) - 1);
    }
    if start != endp - 1 {
        vstd::slice::slice_to_vec(vstd::slice::slice_subrange(s, start + 1, endp - 1))
    } else {
        vstd::slice::slice_to_vec(s)
    }
}

/// Extracts the payload text of a `q|...|` probe string token: the content
/// strictly between the first and last occurrence of the delimiter that
/// follows the `q`; a token not of that shape is kept whole.
pub fn parse_probe_string(probe_part: &str) -> (r: Vec<u8>)
    ensures
        r@ == extract_probe_string(probe_part.spec_bytes()),
{
    extract_probe_bytes(probe_part.as_bytes())
}

pub(crate) fn extract_probe_bytes(s: &[u8]) -> (r: Vec<u8>)
    ensures
        r@ == extract_probe_string(s@),
{
    if s.len() > 2 && s[0] == 113 {
        extract_delimited(s, 113)
    } else {
        vstd::slice::slice_to_vec(s)
    }
}

/// The pattern text of an `m/.../flags` clause: the content strictly between
/// the first and last occurrence of the delimiter that follows the `m`, the
/// flags dropped; a clause not of that shape is kept whole.
pub open spec fn extract_pattern(s: Seq<u8>) -> Seq<u8> {
    if s.len() > 2 && s[0] == 109 {
        let d = s[1];
        let start = find_idx(s, d);
        let endp = rfind_end(s, d);
        if start != endp - 1 {
            s.subrange(start + 1, endp - 1)
        } else {
            s
        }
    } else {
        s
    }
}

pub(crate) fn extract_pattern_bytes(s: &[u8]) -> (r: Vec<u8>)
    ensures
        r@ == extract_pattern(s@),
{
    if s.len() > 2 && s[0] == 109 {
        extract_delimited(s, 109)
    } else {
        vstd::slice::slice_to_vec(s)
    }
}

/// Which field a tag byte names, for the single-letter tags.
pub open spec fn tag_of_byte(b: u8) -> Option<FieldTag> {
    if b == 112 {
        Some(FieldTag::Product)
    } else if b == 118 {
        Some(FieldTag::Version)
    } else if b == 105 {
        Some(FieldTag::Info)
    } else if b == 104 {
        Some(FieldTag::Hostname)
    } else if b == 111 {
        Some(FieldTag::Os)
    } else if b == 100 {
        Some(FieldTag::Device)
    } else {
        None
    }
}

/// What one version-field token denotes: `cpe:` followed by anything keeps
/// the rest verbatim under the cpe tag; a single-letter tag takes the text
/// between the first and last occurrence of its delimiter; everything else
/// is dropped.
pub open spec fn parse_version_field_spec(f: Seq<u8>) -> Option<(FieldTag, Seq<u8>)> {
    if f.len() < 3 {
        None
    } else if f.len() >= 4 && f.take(4) == ("cpe:").spec_bytes() {
        Some((FieldTag::Cpe, f.skip(4)))
    } else {
        match tag_of_byte(f[0]) {
            Some(tag) => {
                let d = f[1];
                let start = find_idx(f, d);
                let endp = rfind_end(f, d);
                if start != endp - 1 {
                    Some((tag, f.subrange(start + 1, endp - 1)))
                } else {
                    None
                }
            },
            None => None,
        }
    }
}

/// Parses one version-field token such as `p/Pure-FTPd/` or `v/$1/`.
pub fn parse_version_field(field: &str) -> (r: Option<(FieldTag, Vec<u8>)>)
    ensures
        match parse_version_field_spec(field.spec_bytes()) {
            Some((tag, val)) => r is Some && (r->0).0 == tag && (r->0).1@ == val,
            None => r is None,
        },
{
    parse_version_field_bytes(field.as_bytes())
}

pub(crate) fn parse_version_field_bytes(f: &[u8]) -> (r: Option<(FieldTag, Vec<u8>)>)
    ensures
        match parse_version_field_spec(f@) {
            Some((tag, val)) => r is Some && (r->0).0 == tag && (r->0).1@ == val,
            None => r is None,
        },
{
    if f.len() < 3 {
        return None;
    }
    if f.len() >= 4 && bytes_eq(vstd::slice::slice_subrange(f, 0, 4), "cpe:".as_bytes()) {
        proof {
            assert(f@.subrange(0, 4) =~= f@.take(4));
        }
        return Some(
            (FieldTag::Cpe, vstd::slice::slice_to_vec(vstd::slice::slice_subrange(f, 4, f.len()))),
        );
    }
    proof {
        if f@.len() >= 4 {
            assert(f@.subrange(0, 4) =~= f@.take(4));
        }
    }
    let b = f[0];
    let tag = if b == 112 {
        FieldTag::Product
    } else if b == 118 {
        FieldTag::Version
    } else if b == 105 {
        FieldTag::Info
    } else if b == 104 {
        FieldTag::Hostname
    } else if b == 111 {
        FieldTag::Os
    } else if b == 100 {
        FieldTag::Device
    } else {
        return None;
    };
    let d = f[1];
    let start = find_byte(f, d);
    let endp = rfind_byte_end(f, d);
    proof {
        crate::text::lemma_find_idx(f@, d);
        crate::text::lemma_rfind_end(f@, d);
        assert(f@[1] == d);
        assert(find_idx(f@, d) <= 1);
        assert(rfind_end(f@, d) >= 2);
    }
    if start != endp - 1 {
        Some((tag, vstd::slice::slice_to_vec(vstd::slice::slice_subrange(f, start + 1, endp - 1))))
    } else {
        None
    }
}

/// The model with one version field set.
pub open spec fn vi_set(vi: VersionInfoModel, tag: FieldTag, val: Seq<u8>) -> VersionInfoModel {
    match tag {
        FieldTag::Product => VersionInfoModel { product: Some(val), ..vi },
        FieldTag::Version => VersionInfoModel { version: Some(val), ..vi },
        FieldTag::Info => VersionInfoModel { info: Some(val), ..vi },
        FieldTag::Hostname => VersionInfoModel { hostname: Some(val), ..vi },
        FieldTag::Os => VersionInfoModel { os_info: Some(val), ..vi },
        FieldTag::Device => VersionInfoModel { device_type: Some(val), ..vi },
        FieldTag::Cpe => VersionInfoModel { cpe: Some(val), ..vi },
    }
}

/// One version-field token applied to the model: a malformed token changes
/// nothing, a later token for the same tag overwrites an earlier one.
pub open spec fn vi_apply(vi: VersionInfoModel, f: Seq<u8>) -> VersionInfoModel {
    match parse_version_field_spec(f) {
        Some((tag, val)) => vi_set(vi, tag, val),
        None => vi,
    }
}

/// The version-field tokens applied to the model, left to right.
pub open spec fn vi_fold(vi: VersionInfoModel, fs: Seq<Seq<u8>>) -> VersionInfoModel
    decreases fs.len(),
{
    if fs.len() == 0 {
        vi
    } else {
        vi_fold(vi_apply(vi, fs[0]), fs.drop_first())
    }
}

proof fn lemma_vi_fold_push(vi: VersionInfoModel, fs: Seq<Seq<u8>>, x: Seq<u8>)
    ensures
        vi_fold(vi, fs.push(x)) == vi_apply(vi_fold(vi, fs), x),
    decreases fs.len(),
{
    assert(fs.push(x).len() != 0);
    assert(vi_fold(vi, fs.push(x)) == vi_fold(vi_apply(vi, fs.push(x)[0]), fs.push(x).drop_first()));
    if fs.len() == 0 {
        assert(fs.push(x)[0] == x);
        assert(fs.push(x).drop_first() =~= Seq::<Seq<u8>>::empty());
        assert(vi_fold(vi_apply(vi, x), Seq::<Seq<u8>>::empty()) == vi_apply(vi, x));
        assert(vi_fold(vi, fs) == vi);
    } else {
        assert(fs.push(x)[0] == fs[0]);
        assert(fs.push(x).drop_first() =~= fs.drop_first().push(x));
        lemma_vi_fold_push(vi_apply(vi, fs[0]), fs.drop_first(), x);
    }
}

/// What one `match` or `softmatch` line denotes: the second token is the
/// service, the third the pattern clause, and the remaining tokens are
/// version fields; a line of fewer than three tokens denotes nothing.
pub open spec fn parse_match_line_spec(line: Seq<u8>) -> Option<MatchEntryModel> {
    let parts = split_ws(line);
    if parts.len() < 3 {
        None
    } else {
        Some(
            MatchEntryModel {
                service: parts[1],
                pattern: extract_pattern(parts[2]),
                version_info: vi_fold(VersionInfo::empty_model(), parts.skip(3)),
            },
        )
    }
}

/// Parses one `match`/`softmatch` line into a rule.
pub fn parse_match_line(line: &str) -> (r: Option<MatchEntry>)
    ensures
        match parse_match_line_spec(line.spec_bytes()) {
            Some(m) => r is Some && (r->0).model() == m,
            None => r is None,
        },
{
    parse_match_line_bytes(line.as_bytes())
}

pub(crate) fn parse_match_line_bytes(line: &[u8]) -> (r: Option<MatchEntry>)
    ensures
        match parse_match_line_spec(line@) {
            Some(m) => r is Some && (r->0).model() == m,
            None => r is None,
        },
{
    let parts = split_ws_bytes(line);
    let ghost dv = parts.deep_view();
    proof {
        crate::text::lemma_deep_view_bytes(parts);
    }
    if parts.len() < 3 {
        return None;
    }
    let service = vstd::slice::slice_to_vec(parts[1].as_slice());
    let pattern = extract_pattern_bytes(parts[2].as_slice());
    let mut vi = VersionInfo::empty();
    let mut k: usize = 3;
    proof {
        assert(dv.skip(3).take(0) =~= Seq::<Seq<u8>>::empty());
        assert(vi.model() == VersionInfo::empty_model());
    }
    while k < parts.len()
        invariant
            3 <= k <= parts@.len(),
            dv == parts.deep_view(),
            dv.len() == parts@.len(),
            forall|j: int| 0 <= j < parts@.len() ==> dv[j] == #[trigger] parts@[j]@,
            vi.model() == vi_fold(VersionInfo::empty_model(), dv.skip(3).take(k - 3)),
        decreases parts@.len() - k,
    {
        let ghost prev = vi.model();
        match parse_version_field_bytes(parts[k].as_slice()) {
            Some((tag, val)) => {
                let ghost v = val@;
                proof {
                    assert(val.deep_view() =~= val@);
                }
                match tag {
                    FieldTag::Product => {
                        vi.product = Some(val);
                    },
                    FieldTag::Version => {
                        vi.version = Some(val);
                    },
                    FieldTag::Info => {
                        vi.info = Some(val);
                    },
                    FieldTag::Hostname => {
                        vi.hostname = Some(val);
                    },
                    FieldTag::Os => {
                        vi.os_info = Some(val);
                    },
                    FieldTag::Device => {
                        vi.device_type = Some(val);
                    },
                    FieldTag::Cpe => {
                        vi.cpe = Some(val);
                    },
                }
                proof {
                    assert(vi.model() == vi_set(prev, tag, v));
                    assert(vi.model() == vi_apply(prev, parts@[k as int]@));
                }
            },
            None => {
                proof {
                    assert(vi.model() == vi_apply(prev, parts@[k as int]@));
                }
            },
        }
        proof {
            lemma_vi_fold_push(VersionInfo::empty_model(), dv.skip(3).take(k - 3), dv[k as int]);
            assert(dv.skip(3).take(k + 1 - 3) =~= dv.skip(3).take(k - 3).push(dv[k as int]));
        }
        k = k + 1;
    }
    proof {
        assert(dv.skip(3).take(k - 3) =~= dv.skip(3));
    }
    let m = MatchEntry { service, pattern, version_info: vi };
    proof {
        assert(m.model() == parse_match_line_spec(line@)->0);
    }
    Some(m)
}

/// The parser's running state: what has been finalized, and the probe whose
/// directives are still being read.
#[verifier::ext_equal]
pub struct ParseStateModel {
    pub excludes: Seq<Seq<u8>>,
    pub probes: Seq<ProbeEntryModel>,
    pub current: Option<ProbeEntryModel>,
}

/// A probe as a `Probe` line opens it: names and payload set, everything
/// else still empty.
pub open spec fn new_probe_model(
    protocol: Seq<u8>,
    name: Seq<u8>,
    payload: Seq<u8>,
    no_payload: bool,
) -> ProbeEntryModel {
    ProbeEntryModel {
        protocol,
        name,
        probe_payload: payload,
        no_payload,
        matches: Seq::empty(),
        soft_matches: Seq::empty(),
        ports: Seq::empty(),
        ssl_ports: Seq::empty(),
        total_wait_ms: None,
        tcp_wrapped_ms: None,
        rarity: None,
        fallback: None,
    }
}

/// An in-progress probe as a sequence: one probe, or nothing.
pub open spec fn current_as_seq(c: Option<ProbeEntryModel>) -> Seq<ProbeEntryModel> {
    match c {
        Some(p) => seq![p],
        None => Seq::empty(),
    }
}

/// Whether a token list holds the given token.
pub open spec fn has_token(ts: Seq<Seq<u8>>, t: Seq<u8>) -> bool {
    exists|j: int| 0 <= j < ts.len() && #[trigger] ts[j] == t
}

/// Whether a `Probe` line carries the `no-payload` token.
pub open spec fn has_no_payload(parts: Seq<Seq<u8>>) -> bool {
    has_token(parts, ("no-payload").spec_bytes())
}

/// Whether any token equals `tok`.
fn contains_token(parts: &Vec<Vec<u8>>, tok: &[u8]) -> (r: bool)
    ensures
        r == has_token(parts.deep_view(), tok@),
{
    let ghost dv = parts.deep_view();
    proof {
        crate::text::lemma_deep_view_bytes(*parts);
    }
    let mut j: usize = 0;
    while j < parts.len()
        invariant
            0 <= j <= parts@.len(),
            dv == parts.deep_view(),
            dv.len() == parts@.len(),
            forall|m: int| 0 <= m < parts@.len() ==> dv[m] == #[trigger] parts@[m]@,
            forall|m: int| 0 <= m < j ==> #[trigger] dv[m] != tok@,
        decreases parts@.len() - j,
    {
        if bytes_eq(parts[j].as_slice(), tok) {
            return true;
        }
        j = j + 1;
    }
    false
}

/// What one line of the grammar does to the parser's state: blank lines and
/// comments are skipped, `Probe` finalizes any in-progress probe and opens a
/// new one, the other directives amend the in-progress probe, and an unknown
/// directive is ignored.
pub open spec fn line_step(st: ParseStateModel, raw: Seq<u8>) -> ParseStateModel {
    let l = trim_spec(raw);
    if l.len() == 0 || l[0] == 35 {
        st
    } else {
        let parts = split_ws(l);
        if parts.len() == 0 {
            st
        } else if parts[0] == ("Exclude").spec_bytes() {
            if parts.len() > 1 {
                ParseStateModel { excludes: st.excludes.push(join_sp(parts.skip(1))), ..st }
            } else {
                st
            }
        } else if parts[0] == ("Probe").spec_bytes() {
            let flushed = ParseStateModel {
                probes: st.probes + current_as_seq(st.current),
                current: None,
                ..st
            };
            if parts.len() >= 4 {
                ParseStateModel {
                    current: Some(
                        new_probe_model(
                            parts[1],
                            parts[2],
                            decode_escapes(extract_probe_string(join_sp(parts.skip(3)))),
                            has_no_payload(parts),
                        ),
                    ),
                    ..flushed
                }
            } else {
                flushed
            }
        } else if parts[0] == ("match").spec_bytes() {
            match (st.current, parse_match_line_spec(l)) {
                (Some(cur), Some(m)) => ParseStateModel {
                    current: Some(ProbeEntryModel { matches: cur.matches.push(m), ..cur }),
                    ..st
                },
                _ => st,
            }
        } else if parts[0] == ("softmatch").spec_bytes() {
            match (st.current, parse_match_line_spec(l)) {
                (Some(cur), Some(m)) => ParseStateModel {
                    current: Some(
                        ProbeEntryModel { soft_matches: cur.soft_matches.push(m), ..cur },
                    ),
                    ..st
                },
                _ => st,
            }
        } else if parts[0] == ("ports").spec_bytes() {
            match st.current {
                Some(cur) => if parts.len() > 1 {
                    ParseStateModel {
                        current: Some(
                            ProbeEntryModel { ports: cur.ports.push(join_sp(parts.skip(1))), ..cur },
                        ),
                        ..st
                    }
                } else {
                    st
                },
                None => st,
            }
        } else if parts[0] == ("sslports").spec_bytes() {
            match st.current {
                Some(cur) => if parts.len() > 1 {
                    ParseStateModel {
                        current: Some(
                            ProbeEntryModel {
                                ssl_ports: cur.ssl_ports.push(join_sp(parts.skip(1))),
                                ..cur
                            },
                        ),
                        ..st
                    }
                } else {
                    st
                },
                None => st,
            }
        } else if parts[0] == ("totalwaitms").spec_bytes() {
            match st.current {
                Some(cur) => if parts.len() > 1 {
                    match parse_dec_spec(parts[1], 4294967295) {
                        Some(v) => ParseStateModel {
                            current: Some(
                                ProbeEntryModel { total_wait_ms: Some(v as u32), ..cur },
                            ),
                            ..st
                        },
                        None => st,
                    }
                } else {
                    st
                },
                None => st,
            }
        } else if parts[0] == ("tcpwrappedms").spec_bytes() {
            match st.current {
                Some(cur) => if parts.len() > 1 {
                    match parse_dec_spec(parts[1], 4294967295) {
                        Some(v) => ParseStateModel {
                            current: Some(
                                ProbeEntryModel { tcp_wrapped_ms: Some(v as u32), ..cur },
                            ),
                            ..st
                        },
                        None => st,
                    }
                } else {
                    st
                },
                None => st,
            }
        } else if parts[0] == ("rarity").spec_bytes() {
            match st.current {
                Some(cur) => if parts.len() > 1 {
                    match parse_dec_spec(parts[1], 255) {
                        Some(v) => ParseStateModel {
                            current: Some(ProbeEntryModel { rarity: Some(v as u8), ..cur }),
                            ..st
                        },
                        None => st,
                    }
                } else {
                    st
                },
                None => st,
            }
        } else if parts[0] == ("fallback").spec_bytes() {
            match st.current {
                Some(cur) => if parts.len() > 1 {
                    ParseStateModel {
                        current: Some(
                            ProbeEntryModel { fallback: Some(join_sp(parts.skip(1))), ..cur },
                        ),
                        ..st
                    }
                } else {
                    st
                },
                None => st,
            }
        } else {
            st
        }
    }
}

/// The state after reading the lines one by one.
pub open spec fn fold_lines(st: ParseStateModel, ls: Seq<Seq<u8>>) -> ParseStateModel
    decreases ls.len(),
{
    if ls.len() == 0 {
        st
    } else {
        fold_lines(line_step(st, ls[0]), ls.drop_first())
    }
}

/// The state a parse starts from: nothing read yet.
pub open spec fn init_state() -> ParseStateModel {
    ParseStateModel { excludes: Seq::empty(), probes: Seq::empty(), current: None }
}

/// What parsing a whole probe definition file yields: a single forward pass
/// over its lines, with the final in-progress probe appended at end of input.
pub open spec fn parse_probes_spec(content: Seq<u8>) -> NmapProbesModel {
    let st = fold_lines(init_state(), lines_of(content));
    NmapProbesModel { excludes: st.excludes, probes: st.probes + current_as_seq(st.current) }
}

proof fn lemma_fold_lines_push(st: ParseStateModel, ls: Seq<Seq<u8>>, x: Seq<u8>)
    ensures
        fold_lines(st, ls.push(x)) == line_step(fold_lines(st, ls), x),
    decreases ls.len(),
{
    assert(ls.push(x).len() != 0);
    assert(fold_lines(st, ls.push(x)) == fold_lines(
        line_step(st, ls.push(x)[0]),
        ls.push(x).drop_first(),
    ));
    if ls.len() == 0 {
        assert(ls.push(x)[0] == x);
        assert(ls.push(x).drop_first() =~= Seq::<Seq<u8>>::empty());
        assert(fold_lines(line_step(st, x), Seq::<Seq<u8>>::empty()) == line_step(st, x));
        assert(fold_lines(st, ls) == st);
    } else {
        assert(ls.push(x)[0] == ls[0]);
        assert(ls.push(x).drop_first() =~= ls.drop_first().push(x));
        lemma_fold_lines_push(line_step(st, ls[0]), ls.drop_first(), x);
    }
}

/// The parser's exec state.
struct ParseState {
    excludes: Vec<Vec<u8>>,
    probes: Vec<ProbeEntry>,
    current: Option<ProbeEntry>,
}

impl ParseState {
    spec fn model(self) -> ParseStateModel {
        ParseStateModel {
            excludes: self.excludes.deep_view(),
            probes: self.probes@.map_values(|p: ProbeEntry| p.model()),
            current: match self.current {
                Some(p) => Some(p.model()),
                None => None,
            },
        }
    }
}

/// Reads one line of the grammar into the parser's state.
fn apply_line(st: &mut ParseState, raw: &[u8])
    ensures
        final(st).model() == line_step(old(st).model(), raw@),
{
    let ghost m0 = old(st).model();
    let l = trim_bytes(raw);
    if l.len() == 0 {
        return ;
    }
    if l[0] == 35 {
        return ;
    }
    let parts = split_ws_bytes(l);
    let ghost dv = parts.deep_view();
    proof {
        crate::text::lemma_deep_view_bytes(parts);
    }
    if parts.len() == 0 {
        return ;
    }
    if bytes_eq(parts[0].as_slice(), "Exclude".as_bytes()) {
        if parts.len() > 1 {
            let joined = join_from(&parts, 1);
            st.excludes.push(joined);
            proof {
                assert(st.model() =~~= line_step(m0, raw@));
            }
        }
    } else if bytes_eq(parts[0].as_slice(), "Probe".as_bytes()) {
        let prev = st.current.take();
        match prev {
            Some(p) => {
                let ghost pm = p.model();
                st.probes.push(p);
                proof {
                    assert(st.probes@.map_values(|q: ProbeEntry| q.model()) =~= m0.probes.push(pm));
                    assert(m0.probes.push(pm) =~= m0.probes + current_as_seq(m0.current));
                }
            },
            None => {
                proof {
                    assert(m0.probes + current_as_seq(m0.current) =~= m0.probes);
                }
            },
        }
        if parts.len() >= 4 {
            let joined = join_from(&parts, 3);
            let extracted = extract_probe_bytes(joined.as_slice());
            let payload = decode_escapes_bytes(extracted.as_slice());
            let protocol = vstd::slice::slice_to_vec(parts[1].as_slice());
            let name = vstd::slice::slice_to_vec(parts[2].as_slice());
            let np = contains_token(&parts, "no-payload".as_bytes());
            st.current = Some(
                ProbeEntry {
                    protocol,
                    name,
                    probe_payload: payload,
                    no_payload: np,
                    matches: Vec::new(),
                    soft_matches: Vec::new(),
                    ports: Vec::new(),
                    ssl_ports: Vec::new(),
                    total_wait_ms: None,
                    tcp_wrapped_ms: None,
                    rarity: None,
                    fallback: None,
                },
            );
        }
        proof {
            assert(st.model() =~~= line_step(m0, raw@));
        }
    } else if bytes_eq(parts[0].as_slice(), "match".as_bytes()) {
        let m = parse_match_line_bytes(l);
        let cur_opt = st.current.take();
        match (cur_opt, m) {
            (Some(cur), Some(me)) => {
                let mut cur = cur;
                let ghost curm = cur.model();
                let ghost mem = me.model();
                cur.matches.push(me);
                proof {
                    assert(cur.matches@.map_values(|q: MatchEntry| q.model()) =~= curm.matches.push(
                        mem,
                    ));
                }
                st.current = Some(cur);
            },
            (Some(cur), None) => {
                st.current = Some(cur);
            },
            (None, _) => {},
        }
        proof {
            assert(st.model() =~~= line_step(m0, raw@));
        }
    } else if bytes_eq(parts[0].as_slice(), "softmatch".as_bytes()) {
        let m = parse_match_line_bytes(l);
        let cur_opt = st.current.take();
        match (cur_opt, m) {
            (Some(cur), Some(me)) => {
                let mut cur = cur;
                let ghost curm = cur.model();
                let ghost mem = me.model();
                cur.soft_matches.push(me);
                proof {
                    assert(cur.soft_matches@.map_values(|q: MatchEntry| q.model())
                        =~= curm.soft_matches.push(mem));
                }
                st.current = Some(cur);
            },
            (Some(cur), None) => {
                st.current = Some(cur);
            },
            (None, _) => {},
        }
        proof {
            assert(st.model() =~~= line_step(m0, raw@));
        }
    } else if bytes_eq(parts[0].as_slice(), "ports".as_bytes()) {
        let cur_opt = st.current.take();
        match cur_opt {
            Some(cur) => {
                let mut cur = cur;
                if parts.len() > 1 {
                    let joined = join_from(&parts, 1);
                    let ghost curm = cur.model();
                    cur.ports.push(joined);
                    proof {
                        assert(cur.ports.deep_view() =~~= curm.ports.push(
                            join_sp(dv.skip(1)),
                        ));
                    }
                }
                st.current = Some(cur);
            },
            None => {},
        }
        proof {
            assert(st.model() =~~= line_step(m0, raw@));
        }
    } else if bytes_eq(parts[0].as_slice(), "sslports".as_bytes()) {
        let cur_opt = st.current.take();
        match cur_opt {
            Some(cur) => {
                let mut cur = cur;
                if parts.len() > 1 {
                    let joined = join_from(&parts, 1);
                    let ghost curm = cur.model();
                    cur.ssl_ports.push(joined);
                    proof {
                        assert(cur.ssl_ports.deep_view() =~~= curm.ssl_ports.push(
                            join_sp(dv.skip(1)),
                        ));
                    }
                }
                st.current = Some(cur);
            },
            None => {},
        }
        proof {
            assert(st.model() =~~= line_step(m0, raw@));
        }
    } else if bytes_eq(parts[0].as_slice(), "totalwaitms".as_bytes()) {
        let cur_opt = st.current.take();
        match cur_opt {
            Some(cur) => {
                let mut cur = cur;
                if parts.len() > 1 {
                    match parse_dec_bytes(parts[1].as_slice(), 4294967295) {
                        Some(v) => {
                            proof {
                                crate::text::lemma_parse_dec_range(dv[1], 4294967295);
                            }
                            cur.total_wait_ms = Some(v as u32);
                        },
                        None => {},
                    }
                }
                st.current = Some(cur);
            },
            None => {},
        }
        proof {
            assert(st.model() =~~= line_step(m0, raw@));
        }
    } else if bytes_eq(parts[0].as_slice(), "tcpwrappedms".as_bytes()) {
        let cur_opt = st.current.take();
        match cur_opt {
            Some(cur) => {
                let mut cur = cur;
                if parts.len() > 1 {
                    match parse_dec_bytes(parts[1].as_slice(), 4294967295) {
                        Some(v) => {
                            proof {
                                crate::text::lemma_parse_dec_range(dv[1], 4294967295);
                            }
                            cur.tcp_wrapped_ms = Some(v as u32);
                        },
                        None => {},
                    }
                }
                st.current = Some(cur);
            },
            None => {},
        }
        proof {
            assert(st.model() =~~= line_step(m0, raw@));
        }
    } else if bytes_eq(parts[0].as_slice(), "rarity".as_bytes()) {
        let cur_opt = st.current.take();
        match cur_opt {
            Some(cur) => {
                let mut cur = cur;
                if parts.len() > 1 {
                    match parse_dec_bytes(parts[1].as_slice(), 255) {
                        Some(v) => {
                            proof {
                                crate::text::lemma_parse_dec_range(dv[1], 255);
                            }
                            cur.rarity = Some(v as u8);
                        },
                        None => {},
                    }
                }
                st.current = Some(cur);
            },
            None => {},
        }
        proof {
            assert(st.model() =~~= line_step(m0, raw@));
        }
    } else if bytes_eq(parts[0].as_slice(), "fallback".as_bytes()) {
        let cur_opt = st.current.take();
        match cur_opt {
            Some(cur) => {
                let mut cur = cur;
                if parts.len() > 1 {
                    let joined = join_from(&parts, 1);
                    proof {
                        assert(joined.deep_view() =~= joined@);
                    }
                    cur.fallback = Some(joined);
                }
                st.current = Some(cur);
            },
            None => {},
        }
        proof {
            assert(st.model() =~~= line_step(m0, raw@));
        }
    }
}

/// Parses the text of a probe definition file into the probe database:
/// a single forward pass over its lines.
pub fn parse_nmap_probes(content: &str) -> (r: NmapProbes)
    ensures
        r.model() == parse_probes_spec(content.spec_bytes()),
{
    parse_nmap_probes_bytes(content.as_bytes())
}

pub(crate) fn parse_nmap_probes_bytes(content: &[u8]) -> (r: NmapProbes)
    ensures
        r.model() == parse_probes_spec(content@),
{
    let ls = lines_bytes(content);
    let ghost lv = ls.deep_view();
    proof {
        crate::text::lemma_deep_view_bytes(ls);
    }
    let mut st = ParseState { excludes: Vec::new(), probes: Vec::new(), current: None };
    proof {
        assert(st.model() =~~= init_state());
        assert(lv.take(0) =~= Seq::<Seq<u8>>::empty());
    }
    let mut i: usize = 0;
    while i < ls.len()
        invariant
            0 <= i <= ls@.len(),
            lv == ls.deep_view(),
            lv.len() == ls@.len(),
            forall|j: int| 0 <= j < ls@.len() ==> lv[j] == #[trigger] ls@[j]@,
            st.model() == fold_lines(init_state(), lv.take(i as int)),
        decreases ls@.len() - i,
    {
        apply_line(&mut st, ls[i].as_slice());
        proof {
            lemma_fold_lines_push(init_state(), lv.take(i as int), lv[i as int]);
            assert(lv.take(i + 1) =~= lv.take(i as int).push(lv[i as int]));
        }
        i = i + 1;
    }
    proof {
        assert(lv.take(i as int) =~= lv);
    }
    let ghost mfinal = st.model();
    let last = st.current.take();
    match last {
        Some(p) => {
            let ghost pm = p.model();
            st.probes.push(p);
            proof {
                assert(st.probes@.map_values(|q: ProbeEntry| q.model()) =~= mfinal.probes.push(pm));
                assert(mfinal.probes.push(pm) =~= mfinal.probes + current_as_seq(mfinal.current));
            }
        },
        None => {
            proof {
                assert(mfinal.probes + current_as_seq(mfinal.current) =~= mfinal.probes);
            }
        },
    }
    let r = NmapProbes { excludes: st.excludes, probes: st.probes };
    proof {
        assert(r.model() =~~= parse_probes_spec(content@));
    }
    r
}

} // verus!
