//! The rule evaluator: which matches of which rules become findings in one file.
use vstd::prelude::*;
use vstd::string::StringSliceAdditionalSpecFns;
use vstd::utf8::*;
use crate::catalog::{Criticity, Rule, RuleView, texts, sources};
use crate::pattern::{Pattern, Hit, regex_captures, regex_is_match, regex_compiles};
use crate::text::{line_of, lines_bytes, replace_all, replace_text, code_lines, get_line_for, same_text, lemma_line_of_monotone};

verus! {

/// What the application's manifest tells the engine.
pub struct Manifest {
    pub min_sdk: u64,
    /// The permissions that the application holds.
    pub permissions: Vec<String>,
}

/// One finding: where a rule matched, and what it reports.
#[derive(Clone, Debug, PartialEq, Eq, PartialOrd, Ord, Hash)]
pub struct Vulnerability {
    pub criticity: Criticity,
    pub label: String,
    pub description: String,
    /// Relative to the project root.
    pub file_path: String,
    /// Zero-based line where the match begins.
    pub start_line: usize,
    /// Zero-based line where the match ends.
    pub end_line: usize,
    /// The text of the lines from `start_line` to `end_line`.
    pub code: String,
}

/// A finding as plain values; the code is given by its UTF-8 bytes.
pub struct FindingView {
    pub criticity: Criticity,
    pub label: Seq<char>,
    pub description: Seq<char>,
    pub file_path: Seq<char>,
    pub start_line: nat,
    pub end_line: nat,
    pub code: Seq<u8>,
}

impl View for Vulnerability {
    type V = FindingView;

    open spec fn view(&self) -> FindingView {
        FindingView {
            criticity: self.criticity,
            label: self.label@,
            description: self.description@,
            file_path: self.file_path@,
            start_line: self.start_line as nat,
            end_line: self.end_line as nat,
            code: encode_utf8(self.code@),
        }
    }
}

pub open spec fn finding_views(v: Seq<Vulnerability>) -> Seq<FindingView> {
    v.map_values(|f: Vulnerability| f@)
}

/// Whether every finding of `v` ends on its start line or after it.
pub open spec fn lines_ordered(v: Seq<Vulnerability>) -> bool {
    forall|j: int| 0 <= j < v.len() ==> #[trigger] v[j].start_line <= v[j].end_line
}

/// Whether the SDK condition of `rule` lets it run: no manifest, no `max_sdk`, or a
/// `max_sdk` not below the manifest's minimum SDK.
pub open spec fn sdk_ok(rule: RuleView, manifest: Option<Manifest>) -> bool {
    match (manifest, rule.max_sdk) {
        (Some(m), Some(x)) => !(x < m.min_sdk),
        _ => true,
    }
}

/// Whether the permission condition of `rule` lets it run: it lists none, or there is a
/// manifest that holds every one it lists.
pub open spec fn permissions_ok(rule: RuleView, manifest: Option<Manifest>) -> bool {
    rule.permissions.len() == 0 || match manifest {
        Some(m) => forall|i: int|
            0 <= i < rule.permissions.len() ==> texts(m.permissions@).contains(
                #[trigger] rule.permissions[i],
            ),
        None => false,
    }
}

/// Whether some whitelist pattern matches the matched text `m`.
pub open spec fn whitelisted(whitelist: Seq<Seq<char>>, m: Seq<char>) -> bool {
    exists|i: int| 0 <= i < whitelist.len() && regex_is_match(#[trigger] whitelist[i], m)
}

/// The forward-check template `t` with the captures that took part put in place of their
/// placeholders.
pub open spec fn substitute(t: Seq<char>, fc1: Option<Seq<char>>, fc2: Option<Seq<char>>) -> Seq<
    char,
> {
    let a = match fc1 {
        Some(x) => replace_all(t, "{fc1}"@, x),
        None => t,
    };
    match fc2 {
        Some(y) => replace_all(a, "{fc2}"@, y),
        None => a,
    }
}

/// The finding that `rule` reports for a match over bytes `s` to `e` of `text`.
pub open spec fn finding_at(rule: RuleView, path: Seq<char>, text: Seq<char>, s: nat, e: nat) -> FindingView {
    let b = encode_utf8(text);
    FindingView {
        criticity: rule.criticity,
        label: rule.label,
        description: rule.description,
        file_path: path,
        start_line: line_of(b, s as int),
        end_line: line_of(b, e as int),
        code: lines_bytes(b, line_of(b, s as int), line_of(b, e as int)),
    }
}

pub open spec fn primary_hits(rule: RuleView, text: Seq<char>) -> Seq<
    (nat, nat, Seq<char>, Option<Seq<char>>, Option<Seq<char>>),
> {
    regex_captures(rule.regex, text, "fc1"@, "fc2"@)
}

/// The findings of the forward check `p` over the whole of `text`.
pub open spec fn secondary_findings(rule: RuleView, path: Seq<char>, text: Seq<char>, p: Seq<char>) -> Seq<
    FindingView,
> {
    regex_captures(p, text, "fc1"@, "fc2"@).map_values(
        |h: (nat, nat, Seq<char>, Option<Seq<char>>, Option<Seq<char>>)|
            finding_at(rule, path, text, h.0, h.1),
    )
}

/// The findings of `rule` for the primary matches `hits`, in order, and whether a forward
/// check failed to compile, which ends the rule's scan of this file.
pub open spec fn scan_hits(
    rule: RuleView,
    path: Seq<char>,
    text: Seq<char>,
    hits: Seq<(nat, nat, Seq<char>, Option<Seq<char>>, Option<Seq<char>>)>,
) -> (Seq<FindingView>, bool)
    decreases hits.len(),
{
    if hits.len() == 0 {
        (seq![], false)
    } else {
        let prev = scan_hits(rule, path, text, hits.drop_last());
        let h = hits.last();
        if prev.1 || whitelisted(rule.whitelist, h.2) {
            prev
        } else {
            match rule.forward_check {
                None => (prev.0.push(finding_at(rule, path, text, h.0, h.1)), false),
                Some(t) => {
                    let p = substitute(t, h.3, h.4);
                    if regex_compiles(p) {
                        (prev.0 + secondary_findings(rule, path, text, p), false)
                    } else {
                        (prev.0, true)
                    }
                },
            }
        }
    }
}

/// What `rule` reports on `text`: its findings, and whether its forward check failed.
pub open spec fn rule_outcome(rule: RuleView, manifest: Option<Manifest>, path: Seq<char>, text: Seq<char>) -> (
    Seq<FindingView>,
    bool,
) {
    if sdk_ok(rule, manifest) && permissions_ok(rule, manifest) {
        scan_hits(rule, path, text, primary_hits(rule, text))
    } else {
        (seq![], false)
    }
}


fn holds_permission(m: &Manifest, p: &str) -> (r: bool)
    ensures
        r == texts(m.permissions@).contains(p@),
{
    let mut i: usize = 0;
    while i < m.permissions.len()
        invariant
            i <= m.permissions@.len(),
            forall|j: int| 0 <= j < i ==> m.permissions@[j]@ != p@,
        decreases m.permissions@.len() - i,
    {
        if same_text(m.permissions[i].as_str(), p) {
            assert(texts(m.permissions@)[i as int] == p@);
            return true;
        }
        i = i + 1;
    }
    proof {
        if texts(m.permissions@).contains(p@) {
            let j = choose|j: int| 0 <= j < texts(m.permissions@).len() && texts(m.permissions@)[j] == p@;
            assert(m.permissions@[j]@ == p@);
        }
    }
    false
}

/// Whether `rule` runs at all for this manifest: its SDK and permission conditions.
pub fn rule_applies(rule: &Rule, manifest: &Option<Manifest>) -> (r: bool)
    ensures
        r == (sdk_ok(rule@, *manifest) && permissions_ok(rule@, *manifest)),
{
    if let (Some(m), Some(x)) = (manifest, rule.get_max_sdk()) {
        if x < m.min_sdk {
            return false;
        }
    }
    let ps = rule.get_permissions();
    if ps.len() == 0 {
        return true;
    }
    let m = match manifest {
        Some(m) => m,
        None => return false,
    };
    let mut i: usize = 0;
    while i < ps.len()
        invariant
            texts(ps@) == rule@.permissions,
            *manifest == Some(*m),
            sdk_ok(rule@, *manifest),
            ps@.len() > 0,
            i <= ps@.len(),
            forall|j: int| 0 <= j < i ==> texts(m.permissions@).contains(#[trigger] rule@.permissions[j]),
        decreases ps@.len() - i,
    {
        assert(texts(ps@)[i as int] == ps@[i as int]@);
        if !holds_permission(m, ps[i].as_str()) {
            assert(!texts(m.permissions@).contains(rule@.permissions[i as int]));
            return false;
        }
        i = i + 1;
    }
    true
}

/// Whether a whitelist pattern of `rule` matches the matched text `m`.
pub fn is_whitelisted(rule: &Rule, m: &str) -> (r: bool)
    ensures
        r == whitelisted(rule@.whitelist, m@),
{
    let ws = rule.get_whitelist();
    let mut i: usize = 0;
    while i < ws.len()
        invariant
            sources(ws@) == rule@.whitelist,
            i <= ws@.len(),
            forall|j: int| 0 <= j < i ==> !regex_is_match(#[trigger] rule@.whitelist[j], m@),
        decreases ws@.len() - i,
    {
        assert(sources(ws@)[i as int] == ws@[i as int].source());
        if ws[i].is_match(m) {
            return true;
        }
        i = i + 1;
    }
    false
}

/// The finding that `rule` reports for a match over bytes `s` to `e` of `text`.
fn make_finding(rule: &Rule, path: &str, text: &str, s: usize, e: usize) -> (r: Vulnerability)
    requires
        s <= e,
    ensures
        r@ == finding_at(rule@, path@, text@, s as nat, e as nat),
        r.start_line <= r.end_line,
{
    let start_line = get_line_for(s, text);
    let end_line = get_line_for(e, text);
    proof {
        lemma_line_of_monotone(text.spec_bytes(), s as int, e as int);
    }
    Vulnerability {
        criticity: rule.get_criticity(),
        label: rule.get_label().to_owned(),
        description: rule.get_description().to_owned(),
        file_path: path.to_owned(),
        start_line,
        end_line,
        code: code_lines(text, start_line, end_line),
    }
}

/// The forward-check template `t` with the captures of `h` put in place.
fn fill_template(t: &str, h: &Hit) -> (r: String)
    ensures
        r@ == substitute(t@, h.view().3, h.view().4),
{
    proof {
        reveal_strlit("{fc1}");
        reveal_strlit("{fc2}");
    }
    let a = match &h.first {
        Some(x) => replace_text(t, "{fc1}", x.as_str()),
        None => t.to_owned(),
    };
    match &h.second {
        Some(y) => replace_text(a.as_str(), "{fc2}", y.as_str()),
        None => a,
    }
}

proof fn lemma_stop_persists(
    rule: RuleView,
    path: Seq<char>,
    text: Seq<char>,
    hits: Seq<(nat, nat, Seq<char>, Option<Seq<char>>, Option<Seq<char>>)>,
    k: int,
)
    requires
        0 <= k <= hits.len(),
        scan_hits(rule, path, text, hits.subrange(0, k)).1,
    ensures
        scan_hits(rule, path, text, hits) == scan_hits(rule, path, text, hits.subrange(0, k)),
    decreases hits.len() - k,
{
    if k < hits.len() {
        assert(hits.subrange(0, k + 1).drop_last() =~= hits.subrange(0, k));
        lemma_stop_persists(rule, path, text, hits, k + 1);
    } else {
        assert(hits.subrange(0, k) =~= hits);
    }
}


/// Adds to `found` one finding of `rule` for each match of the forward check `p` in `text`.
fn push_secondary(
    found: &mut Vec<Vulnerability>,
    rule: &Rule,
    path: &str,
    text: &str,
    p: &Pattern,
)
    ensures
        finding_views(final(found)@) == finding_views(old(found)@) + secondary_findings(
            rule@,
            path@,
            text@,
            p.source(),
        ),
        lines_ordered(old(found)@) ==> lines_ordered(final(found)@),
{
    let hs = p.captures(text, "fc1", "fc2");
    let ghost hv = regex_captures(p.source(), text@, "fc1"@, "fc2"@);
    let ghost base = finding_views(found@);
    let ghost all = secondary_findings(rule@, path@, text@, p.source());
    let mut k: usize = 0;
    assert(finding_views(found@) =~= base + all.subrange(0, 0));
    while k < hs.len()
        invariant
            hs@.len() == hv.len(),
            forall|i: int| 0 <= i < hs@.len() ==> #[trigger] hs@[i].view() == hv[i],
            forall|i: int| 0 <= i < hs@.len() ==> #[trigger] hs@[i].start <= hs@[i].end,
            hv == regex_captures(p.source(), text@, "fc1"@, "fc2"@),
            all == secondary_findings(rule@, path@, text@, p.source()),
            all.len() == hv.len(),
            k <= hs@.len(),
            finding_views(found@) == base + all.subrange(0, k as int),
            lines_ordered(old(found)@) ==> lines_ordered(found@),
        decreases hs@.len() - k,
    {
        let f = make_finding(rule, path, text, hs[k].start, hs[k].end);
        let ghost before = found@;
        found.push(f);
        assert(hs@[k as int].view() == hv[k as int]);
        assert(finding_views(found@) =~= finding_views(before).push(all[k as int]));
        assert(all.subrange(0, k + 1) =~= all.subrange(0, k as int).push(all[k as int]));
        k = k + 1;
    }
    assert(all.subrange(0, k as int) =~= all);
}

/// What `rule` reports on the file `path` whose text is `text`: its findings, in match
/// order, and whether a forward check failed to compile (which ends the rule's scan of
/// the file).
pub fn evaluate_rule(rule: &Rule, manifest: &Option<Manifest>, path: &str, text: &str) -> (r: (
    Vec<Vulnerability>,
    bool,
))
    ensures
        (finding_views(r.0@), r.1) == rule_outcome(rule@, *manifest, path@, text@),
        lines_ordered(r.0@),
{
    let mut found: Vec<Vulnerability> = Vec::new();
    assert(finding_views(found@) =~= Seq::<FindingView>::empty());
    if !rule_applies(rule, manifest) {
        return (found, false);
    }
    let hs = rule.get_regex().captures(text, "fc1", "fc2");
    let ghost hv = primary_hits(rule@, text@);
    let mut i: usize = 0;
    assert(hv.subrange(0, 0) =~= Seq::empty());
    while i < hs.len()
        invariant
            hs@.len() == hv.len(),
            forall|j: int| 0 <= j < hs@.len() ==> #[trigger] hs@[j].view() == hv[j],
            forall|j: int| 0 <= j < hs@.len() ==> #[trigger] hs@[j].start <= hs@[j].end,
            hv == primary_hits(rule@, text@),
            sdk_ok(rule@, *manifest) && permissions_ok(rule@, *manifest),
            i <= hs@.len(),
            scan_hits(rule@, path@, text@, hv.subrange(0, i as int)) == (finding_views(found@), false),
            lines_ordered(found@),
        decreases hs@.len() - i,
    {
        let ghost pre = hv.subrange(0, i + 1);
        assert(pre.drop_last() =~= hv.subrange(0, i as int));
        assert(hs@[i as int].view() == hv[i as int]);
        let h = &hs[i];
        if !is_whitelisted(rule, h.matched.as_str()) {
            match rule.get_forward_check() {
                None => {
                    let f = make_finding(rule, path, text, h.start, h.end);
                    let ghost before = found@;
                    found.push(f);
                    assert(finding_views(found@) =~= finding_views(before).push(
                        finding_at(rule@, path@, text@, h.start as nat, h.end as nat),
                    ));
                },
                Some(t) => {
                    let filled = fill_template(t.as_str(), h);
                    match Pattern::compile(filled.as_str()) {
                        Ok(p) => {
                            push_secondary(&mut found, rule, path, text, &p);
                        },
                        Err(_) => {
                            proof {
                                assert(scan_hits(rule@, path@, text@, pre).1);
                                lemma_stop_persists(rule@, path@, text@, hv, i + 1);
                            }
                            return (found, true);
                        },
                    }
                },
            }
        }
        i = i + 1;
    }
    assert(hv.subrange(0, i as int) =~= hv);
    (found, false)
}


/// Something that went wrong in one file, which the scan reports and then goes past.
#[derive(Clone, Copy, PartialEq, Eq, Debug, Structural)]
pub enum ScanWarning {
    /// The file is not valid UTF-8; it was skipped.
    NotUtf8,
    /// The forward check of the rule at this catalog position did not compile; the rest
    /// of that rule's scan of the file was dropped.
    ForwardCheckFailed { rule: usize },
}

/// The findings of `rules` on `text`, rule by rule in catalog order, and the warnings.
pub open spec fn scan_rules(
    rules: Seq<RuleView>,
    manifest: Option<Manifest>,
    path: Seq<char>,
    text: Seq<char>,
) -> (Seq<FindingView>, Seq<ScanWarning>)
    decreases rules.len(),
{
    if rules.len() == 0 {
        (seq![], seq![])
    } else {
        let prev = scan_rules(rules.drop_last(), manifest, path, text);
        let o = rule_outcome(rules.last(), manifest, path, text);
        (
            prev.0 + o.0,
            if o.1 {
                prev.1.push(ScanWarning::ForwardCheckFailed { rule: (rules.len() - 1) as usize })
            } else {
                prev.1
            },
        )
    }
}

/// What scanning the file `path` with contents `bytes` reports.
pub open spec fn file_outcome(
    rules: Seq<RuleView>,
    manifest: Option<Manifest>,
    path: Seq<char>,
    bytes: Seq<u8>,
) -> (Seq<FindingView>, Seq<ScanWarning>) {
    if valid_utf8(bytes) {
        scan_rules(rules, manifest, path, decode_utf8(bytes))
    } else {
        (seq![], seq![ScanWarning::NotUtf8])
    }
}

/// The findings and warnings of one file.
#[derive(Clone, Debug)]
pub struct FileReport {
    pub findings: Vec<Vulnerability>,
    pub warnings: Vec<ScanWarning>,
}

/// Evaluates every rule of the catalog, in order, on the text `text` of the file `path`.
pub fn scan_text(rules: &Vec<Rule>, manifest: &Option<Manifest>, path: &str, text: &str) -> (r:
    FileReport)
    ensures
        (finding_views(r.findings@), r.warnings@) == scan_rules(
            crate::catalog::views(rules@),
            *manifest,
            path@,
            text@,
        ),
        lines_ordered(r.findings@),
{
    let ghost rv = crate::catalog::views(rules@);
    let mut findings: Vec<Vulnerability> = Vec::new();
    let mut warnings: Vec<ScanWarning> = Vec::new();
    let mut i: usize = 0;
    assert(rv.subrange(0, 0) =~= Seq::<RuleView>::empty());
    assert(finding_views(findings@) =~= Seq::<FindingView>::empty());
    while i < rules.len()
        invariant
            rv == crate::catalog::views(rules@),
            i <= rules@.len(),
            scan_rules(rv.subrange(0, i as int), *manifest, path@, text@) == (
                finding_views(findings@),
                warnings@,
            ),
            lines_ordered(findings@),
        decreases rules@.len() - i,
    {
        let ghost pre = rv.subrange(0, i + 1);
        assert(pre.drop_last() =~= rv.subrange(0, i as int));
        assert(pre.last() == rules@[i as int]@);
        let (mut found, failed) = evaluate_rule(&rules[i], manifest, path, text);
        let ghost before = finding_views(findings@);
        let ghost added = finding_views(found@);
        let ghost fb = findings@;
        let ghost fa = found@;
        findings.append(&mut found);
        assert(finding_views(findings@) =~= before + added);
        assert(findings@ =~= fb + fa);
        if failed {
            warnings.push(ScanWarning::ForwardCheckFailed { rule: i });
        }
        i = i + 1;
    }
    assert(rv.subrange(0, i as int) =~= rv);
    FileReport { findings, warnings }
}

/// Scans one file: its bytes are decoded as UTF-8 and every rule is evaluated on the text;
/// a file that is not UTF-8 gives no finding and one warning.
pub fn analyze_file(rules: &Vec<Rule>, manifest: &Option<Manifest>, path: &str, bytes: &[u8]) -> (r:
    FileReport)
    ensures
        (finding_views(r.findings@), r.warnings@) == file_outcome(
            crate::catalog::views(rules@),
            *manifest,
            path@,
            bytes@,
        ),
        lines_ordered(r.findings@),
{
    match crate::text::decode_text(bytes) {
        Some(text) => {
            proof {
                encode_utf8_decode_utf8(text@);
            }
            scan_text(rules, manifest, path, text)
        },
        None => {
            let findings: Vec<Vulnerability> = Vec::new();
            let mut warnings: Vec<ScanWarning> = Vec::new();
            warnings.push(ScanWarning::NotUtf8);
            assert(finding_views(findings@) =~= Seq::<FindingView>::empty());
            assert(warnings@ =~= seq![ScanWarning::NotUtf8]);
            FileReport { findings, warnings }
        },
    }
}


/// The tenths of the work done when `done` of `total` files are scanned.
pub open spec fn tenths_done(done: nat, total: nat) -> nat {
    if total == 0 {
        10
    } else {
        done * 10 / total
    }
}

/// The progress milestone to announce when `done` of `total` files are scanned and
/// `last` tenths were announced already: the tenths now reached, if more than `last`.
pub fn next_milestone(done: usize, total: usize, last: usize) -> (r: Option<usize>)
    requires
        done <= total,
    ensures
        tenths_done(done as nat, total as nat) > last ==> r == Some(
            tenths_done(done as nat, total as nat) as usize,
        ),
        tenths_done(done as nat, total as nat) <= last ==> r is None,
{
    let tenths: u128 = if total == 0 {
        10
    } else {
        proof {
            assert((done as nat) * 10 / (total as nat) <= 10) by (nonlinear_arith)
                requires
                    done <= total,
                    total > 0,
            ;
        }
        (done as u128) * 10 / (total as u128)
    };
    if tenths > last as u128 {
        Some(tenths as usize)
    } else {
        None
    }
}

} // verus!
