//! Properties of the catalog and of the engine that hold for every input.
use vstd::prelude::*;
use vstd::seq_lib::*;
use crate::json::JsonValue;
use crate::catalog::{RuleView, rule_spec, rules_spec, catalog_spec, criticity_of, field, permissions_spec};
use crate::engine::{
    Manifest, FindingView, ScanWarning, file_outcome, rule_outcome, scan_hits, sdk_ok,
    permissions_ok, whitelisted, primary_hits,
};

verus! {

/// A file that is not valid UTF-8 gives no finding and exactly one warning.
pub proof fn law_undecodable_file(
    rules: Seq<RuleView>,
    manifest: Option<Manifest>,
    path: Seq<char>,
    bytes: Seq<u8>,
)
    requires
        !vstd::utf8::valid_utf8(bytes),
    ensures
        file_outcome(rules, manifest, path, bytes).0.len() == 0,
        file_outcome(rules, manifest, path, bytes).1 == seq![ScanWarning::NotUtf8],
{
}

proof fn lemma_scan_hits_source(
    rule: RuleView,
    path: Seq<char>,
    text: Seq<char>,
    hits: Seq<(nat, nat, Seq<char>, Option<Seq<char>>, Option<Seq<char>>)>,
)
    requires
        scan_hits(rule, path, text, hits).0.len() > 0,
    ensures
        exists|i: int| 0 <= i < hits.len() && !whitelisted(rule.whitelist, #[trigger] hits[i].2),
    decreases hits.len(),
{
    let prev = scan_hits(rule, path, text, hits.drop_last());
    let h = hits.last();
    if prev.0.len() > 0 {
        lemma_scan_hits_source(rule, path, text, hits.drop_last());
        let i = choose|i: int|
            0 <= i < hits.drop_last().len() && !whitelisted(rule.whitelist, #[trigger] hits.drop_last()[i].2);
        assert(hits[i] == hits.drop_last()[i]);
    } else {
        assert(!whitelisted(rule.whitelist, hits[hits.len() - 1].2));
    }
}

/// A rule reports something only when its SDK and permission conditions hold and one of
/// its matches is not whitelisted.
pub proof fn law_emission_conditions(
    rule: RuleView,
    manifest: Option<Manifest>,
    path: Seq<char>,
    text: Seq<char>,
)
    requires
        rule_outcome(rule, manifest, path, text).0.len() > 0,
    ensures
        sdk_ok(rule, manifest),
        permissions_ok(rule, manifest),
        exists|i: int|
            0 <= i < primary_hits(rule, text).len() && !whitelisted(
                rule.whitelist,
                #[trigger] primary_hits(rule, text)[i].2,
            ),
{
    lemma_scan_hits_source(rule, path, text, primary_hits(rule, text));
}

proof fn lemma_rules_spec_err(v: Seq<JsonValue>, known: Seq<Seq<char>>, i: int)
    requires
        0 <= i < v.len(),
        rule_spec(v[i], known) is Err,
    ensures
        rules_spec(v, known) is Err,
    decreases v.len(),
{
    if i < v.len() - 1 {
        assert(v.drop_last()[i] == v[i]);
        lemma_rules_spec_err(v.drop_last(), known, i);
    }
}

/// One entry that fails to load makes the whole catalog fail: nothing is scanned.
pub proof fn law_bad_entry_fails_catalog(doc: JsonValue, known: Seq<Seq<char>>, i: int)
    requires
        doc matches JsonValue::Array(v) && 0 <= i < v@.len() && rule_spec(v@[i], known) is Err,
    ensures
        catalog_spec(doc, known) is Err,
{
    if let JsonValue::Array(v) = doc {
        lemma_rules_spec_err(v@, known, i);
    }
}

/// An entry whose criticity names no severity does not load.
pub proof fn law_unknown_criticity(entry: JsonValue, known: Seq<Seq<char>>)
    requires
        entry matches JsonValue::Object(o) && (field(o@, "criticity"@) matches Some(
            JsonValue::Str(c),
        ) && criticity_of(c@) is None),
    ensures
        rule_spec(entry, known) is Err,
{
}

proof fn lemma_permissions_unknown(v: Seq<JsonValue>, known: Seq<Seq<char>>, i: int)
    requires
        0 <= i < v.len(),
        v[i] matches JsonValue::Str(p) && !known.contains(p@),
    ensures
        permissions_spec(v, known) is Err,
    decreases v.len(),
{
    if i < v.len() - 1 {
        assert(v.drop_last()[i] == v[i]);
        lemma_permissions_unknown(v.drop_last(), known, i);
    }
}

/// An entry that lists a permission that is not known does not load.
pub proof fn law_unknown_permission(entry: JsonValue, known: Seq<Seq<char>>, i: int)
    requires
        entry matches JsonValue::Object(o) && (field(o@, "permissions"@) matches Some(
            JsonValue::Array(a),
        ) && (0 <= i < a@.len() && (a@[i] matches JsonValue::Str(p) && !known.contains(p@)))),
    ensures
        rule_spec(entry, known) is Err,
{
    if let JsonValue::Object(o) = entry {
        if let Some(JsonValue::Array(a)) = field(o@, "permissions"@) {
            lemma_permissions_unknown(a@, known, i);
        }
    }
}

/// The findings of the files `files` (each a path and its contents), one file after the
/// other.
pub open spec fn run_findings(
    rules: Seq<RuleView>,
    manifest: Option<Manifest>,
    files: Seq<(Seq<char>, Seq<u8>)>,
) -> Seq<FindingView>
    decreases files.len(),
{
    if files.len() == 0 {
        seq![]
    } else {
        run_findings(rules, manifest, files.drop_last()) + file_outcome(
            rules,
            manifest,
            files.last().0,
            files.last().1,
        ).0
    }
}

proof fn lemma_run_remove(
    rules: Seq<RuleView>,
    manifest: Option<Manifest>,
    files: Seq<(Seq<char>, Seq<u8>)>,
    k: int,
)
    requires
        0 <= k < files.len(),
    ensures
        run_findings(rules, manifest, files).to_multiset() =~= run_findings(
            rules,
            manifest,
            files.remove(k),
        ).to_multiset().add(file_outcome(rules, manifest, files[k].0, files[k].1).0.to_multiset()),
    decreases files.len(),
{
    broadcast use lemma_multiset_commutative;
    broadcast use vstd::multiset::group_multiset_axioms;

    if k == files.len() - 1 {
        assert(files.remove(k) =~= files.drop_last());
    } else {
        lemma_run_remove(rules, manifest, files.drop_last(), k);
        assert(files.remove(k).drop_last() =~= files.drop_last().remove(k));
        assert(files.remove(k).last() == files.last());
        assert(files.drop_last()[k] == files[k]);
    }
}

/// The multiset of findings does not depend on the order in which the files are
/// scanned: whatever the number of workers and however they share the files out, the
/// findings gathered are the same.
pub proof fn law_order_free(
    rules: Seq<RuleView>,
    manifest: Option<Manifest>,
    files: Seq<(Seq<char>, Seq<u8>)>,
    reordered: Seq<(Seq<char>, Seq<u8>)>,
)
    requires
        files.to_multiset() == reordered.to_multiset(),
    ensures
        run_findings(rules, manifest, files).to_multiset() == run_findings(
            rules,
            manifest,
            reordered,
        ).to_multiset(),
    decreases files.len(),
{
    broadcast use group_to_multiset_ensures;
    broadcast use lemma_multiset_commutative;
    broadcast use vstd::multiset::group_multiset_axioms;

    if files.len() == 0 {
        assert(files.to_multiset().len() == 0);
        assert(reordered.to_multiset().len() == reordered.len());
        assert(reordered.len() == 0);
        assert(reordered =~= Seq::<(Seq<char>, Seq<u8>)>::empty());
    } else {
        let x = files.last();
        assert(files =~= files.drop_last().push(x));
        assert(files.to_multiset().count(x) > 0);
        assert(reordered.contains(x));
        let k = choose|k: int| 0 <= k < reordered.len() && reordered[k] == x;
        assert(reordered.remove(k).to_multiset() =~= reordered.to_multiset().remove(x));
        assert(files.drop_last().to_multiset() =~= files.to_multiset().remove(x));
        law_order_free(rules, manifest, files.drop_last(), reordered.remove(k));
        lemma_run_remove(rules, manifest, reordered, k);
    }
}

/// Scanning the same files twice, in any two orders, gathers the same multiset of
/// findings.
pub proof fn law_repeatable(
    rules: Seq<RuleView>,
    manifest: Option<Manifest>,
    files: Seq<(Seq<char>, Seq<u8>)>,
    first_run: Seq<FindingView>,
    second_run: Seq<FindingView>,
)
    requires
        first_run == run_findings(rules, manifest, files),
        second_run == run_findings(rules, manifest, files),
    ensures
        first_run.to_multiset() == second_run.to_multiset(),
{
}

} // verus!
