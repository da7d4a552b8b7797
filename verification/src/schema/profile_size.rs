//! How large an agent-mode profile can become.
use vstd::prelude::*;
use vstd::utf8;

use super::agent_profile;
use super::agent_profile::{
    AgentFindingModel, AgentProfileBounds, AgentProfileModel, AgentReasonModel,
};
use super::enums::{Attestation, Completeness, Verdict};
use super::payload::{HeadKind, IterationState, MeasurementRecord};
use crate::canonical;
use crate::canonical::JsonModel;
use crate::sorting;
use crate::text;

verus! {

// --- strings and numbers --------------------------------------------------

/// How many bytes a string takes, to be unfolded only where it is needed.
#[verifier::opaque]
spec fn weight(s: Seq<char>) -> nat {
    text::byte_len(s)
}

/// How many bytes a value takes when written, to be unfolded only where it is
/// needed.
#[verifier::opaque]
spec fn size(j: JsonModel) -> nat {
    text::byte_len(canonical::encode(j))
}

proof fn lemma_one_char(c: char)
    ensures
        text::byte_len(seq![c]) >= 1,
        c as int <= 0x7f ==> text::byte_len(seq![c]) == 1,
{
    text::lemma_byte_len_at_least(seq![c]);
    if c as int <= 0x7f {
        assert(utf8::is_ascii_chars(seq![c]));
        utf8::is_ascii_chars_encode_utf8(seq![c]);
    }
}

proof fn lemma_plain(s: Seq<char>)
    requires
        utf8::is_ascii_chars(s),
    ensures
        text::byte_len(s) == s.len(),
{
    utf8::is_ascii_chars_encode_utf8(s);
}

proof fn lemma_escape(c: char)
    ensures
        text::byte_len(canonical::escape_char(c)) <= 6 * text::byte_len(seq![c]),
{
    lemma_one_char(c);
    let e = canonical::escape_char(c);
    let n = c as int;
    if n == 0x22 || n == 0x5c || n < 0x20 {
        assert forall|i: int| 0 <= i < e.len() implies '\0' <= #[trigger] e[i] <= '\u{7f}' by {}
        lemma_plain(e);
    }
}

proof fn lemma_escaped(s: Seq<char>)
    ensures
        text::byte_len(canonical::escaped(s)) <= 6 * text::byte_len(s),
    decreases s.len(),
{
    if s.len() > 0 {
        let rest = s.drop_last();
        lemma_escaped(rest);
        lemma_escape(s.last());
        text::lemma_byte_len_concat(canonical::escaped(rest), canonical::escape_char(s.last()));
        text::lemma_byte_len_concat(rest, seq![s.last()]);
        assert(s =~= rest + seq![s.last()]);
    }
}

proof fn lemma_quoted(s: Seq<char>)
    ensures
        text::byte_len(canonical::quoted(s)) <= 6 * text::byte_len(s) + 2,
{
    lemma_escaped(s);
    lemma_one_char('"');
    let e = canonical::escaped(s);
    text::lemma_byte_len_concat(seq!['"'] + e, seq!['"']);
    text::lemma_byte_len_concat(seq!['"'], e);
}

proof fn lemma_digits(n: nat, k: nat)
    requires
        k >= 1,
        n < canonical::ten_to(k),
    ensures
        text::byte_len(text::decimal(n)) <= k,
    decreases k,
{
    let last = text::digit((n % 10) as int);
    lemma_one_char(last);
    if n < 10 {
        lemma_one_char(text::digit(n as int));
    } else {
        if k == 1 {
            assert(canonical::ten_to(1) == 10 * canonical::ten_to(0));
        }
        assert(canonical::ten_to(k) == 10 * canonical::ten_to((k - 1) as nat));
        lemma_digits(n / 10, (k - 1) as nat);
        text::lemma_byte_len_concat(text::decimal(n / 10), seq![last]);
        assert(text::decimal(n) =~= text::decimal(n / 10) + seq![last]);
    }
}

proof fn lemma_number(n: u32)
    ensures
        size(JsonModel::Whole(n as int)) <= 10,
{
    reveal(size);
    reveal_with_fuel(canonical::ten_to, 11);
    lemma_digits(n as nat, 10);
}

proof fn lemma_truth(b: bool)
    ensures
        size(JsonModel::Bool(b)) <= 5,
{
    reveal(size);
    lemma_plain(canonical::encode(JsonModel::Bool(b)));
}

proof fn lemma_null()
    ensures
        size(JsonModel::Null) == 4,
{
    reveal(size);
    lemma_plain(canonical::encode(JsonModel::Null));
}

proof fn lemma_text(s: Seq<char>)
    ensures
        size(JsonModel::Text(s)) <= 6 * weight(s) + 2,
{
    reveal(size);
    reveal(weight);
    lemma_quoted(s);
}

// --- objects --------------------------------------------------------------

spec fn cost(m: (Seq<char>, Seq<char>)) -> nat {
    text::byte_len(canonical::member_text(m)) + 1
}

spec fn adding() -> spec_fn(nat, (Seq<char>, Seq<char>)) -> nat {
    |sum: nat, m: (Seq<char>, Seq<char>)| sum + cost(m)
}

spec fn total(pairs: Seq<(Seq<char>, Seq<char>)>) -> nat {
    pairs.fold_left(0nat, adding())
}

proof fn lemma_joined_total(pairs: Seq<(Seq<char>, Seq<char>)>)
    ensures
        text::byte_len(
            text::joined(
                pairs.map_values(|m: (Seq<char>, Seq<char>)| canonical::member_text(m)),
                seq![','],
            ),
        ) <= total(pairs),
    decreases pairs.len(),
{
    let f = |m: (Seq<char>, Seq<char>)| canonical::member_text(m);
    let parts = pairs.map_values(f);
    if pairs.len() == 0 {
        utf8::is_ascii_chars_encode_utf8(Seq::<char>::empty());
    } else {
        let rest = pairs.drop_last();
        lemma_joined_total(rest);
        assert(parts.drop_last() =~= rest.map_values(f));
        assert(parts.last() == canonical::member_text(pairs.last()));
        assert(total(pairs) == total(rest) + cost(pairs.last()));
        if pairs.len() > 1 {
            let head = text::joined(parts.drop_last(), seq![',']);
            text::lemma_byte_len_concat(head + seq![','], parts.last());
            text::lemma_byte_len_concat(head, seq![',']);
            lemma_one_char(',');
        } else {
            assert(rest =~= Seq::empty());
            assert(parts[0] == parts.last());
        }
    }
}

/// What a row takes at most: its key with every character escaped, its value,
/// and what stands around them.
spec fn row_cost(row: (Seq<char>, JsonModel)) -> nat {
    6 * weight(row.0) + 4 + size(row.1)
}

#[verifier::opaque]
spec fn row_total(rows: Seq<(Seq<char>, JsonModel)>) -> nat
    decreases rows.len(),
{
    if rows.len() == 0 {
        0
    } else {
        row_total(rows.drop_last()) + row_cost(rows.last())
    }
}

proof fn lemma_no_rows()
    ensures
        row_total(Seq::empty()) == 0,
{
    reveal(row_total);
}

proof fn lemma_row_pushed(rows: Seq<(Seq<char>, JsonModel)>, row: (Seq<char>, JsonModel))
    ensures
        row_total(rows.push(row)) == row_total(rows) + row_cost(row),
{
    reveal(row_total);
    assert(rows.push(row).drop_last() =~= rows);
}

proof fn lemma_rows_total(rows: Seq<(Seq<char>, JsonModel)>)
    ensures
        total(canonical::encoded_members(rows)) <= row_total(rows),
    decreases rows.len(),
{
    reveal(row_total);
    reveal(weight);
    reveal(size);
    let pairs = canonical::encoded_members(rows);
    if rows.len() == 0 {
        assert(pairs =~= Seq::empty());
    } else {
        let rest = rows.drop_last();
        lemma_rows_total(rest);
        assert(pairs.drop_last() =~= canonical::encoded_members(rest));
        let m = pairs.last();
        assert(m == (rows.last().0, canonical::encode(rows.last().1)));
        assert(total(pairs) == total(pairs.drop_last()) + cost(m));
        lemma_quoted(m.0);
        lemma_one_char(':');
        text::lemma_byte_len_concat(canonical::quoted(m.0) + seq![':'], m.1);
        text::lemma_byte_len_concat(canonical::quoted(m.0), seq![':']);
    }
}

proof fn lemma_object(rows: Seq<(Seq<char>, JsonModel)>)
    ensures
        size(JsonModel::Members(rows)) <= 2 + row_total(rows),
{
    reveal(size);
    let pairs = canonical::encoded_members(rows);
    let lt = canonical::member_order();
    let ordered = sorting::sorted(pairs, lt);
    sorting::lemma_sorted_keeps_items(pairs, lt);
    assert(vstd::seq_lib::commutative_foldl(adding()));
    vstd::seq_lib::lemma_fold_left_permutation(ordered, pairs, adding(), 0nat);
    lemma_joined_total(ordered);
    lemma_rows_total(rows);
    let body = text::joined(canonical::member_texts(pairs), seq![',']);
    text::lemma_byte_len_concat(seq!['{'] + body, seq!['}']);
    text::lemma_byte_len_concat(seq!['{'], body);
    lemma_one_char('{');
    lemma_one_char('}');
}

// --- the header -----------------------------------------------------------

proof fn lemma_keys()
    ensures
        weight("schema_version"@) == 14,
        weight("profile"@) == 7,
        weight("verdict"@) == 7,
        weight("verdict_invalid"@) == 15,
        weight("attestation"@) == 11,
        weight("counts_downstream"@) == 17,
        weight("completeness"@) == 12,
        weight("base_oid"@) == 8,
        weight("head_oid"@) == 8,
        weight("head_kind"@) == 9,
        weight("measured_instead"@) == 16,
        weight("withheld_paths"@) == 14,
        weight("unread_paths"@) == 12,
        weight("iteration"@) == 9,
        weight("findings"@) == 8,
        weight("total_findings"@) == 14,
        weight("reasons"@) == 7,
        weight("total_reasons"@) == 13,
        weight("truncated"@) == 9,
        weight("count"@) == 5,
        weight("cap"@) == 3,
        weight("escalated"@) == 9,
{
    reveal(weight);
    reveal_strlit("schema_version");
    assert(utf8::is_ascii_chars("schema_version"@));
    lemma_plain("schema_version"@);
    reveal_strlit("profile");
    assert(utf8::is_ascii_chars("profile"@));
    lemma_plain("profile"@);
    reveal_strlit("verdict");
    assert(utf8::is_ascii_chars("verdict"@));
    lemma_plain("verdict"@);
    reveal_strlit("verdict_invalid");
    assert(utf8::is_ascii_chars("verdict_invalid"@));
    lemma_plain("verdict_invalid"@);
    reveal_strlit("attestation");
    assert(utf8::is_ascii_chars("attestation"@));
    lemma_plain("attestation"@);
    reveal_strlit("counts_downstream");
    assert(utf8::is_ascii_chars("counts_downstream"@));
    lemma_plain("counts_downstream"@);
    reveal_strlit("completeness");
    assert(utf8::is_ascii_chars("completeness"@));
    lemma_plain("completeness"@);
    reveal_strlit("base_oid");
    assert(utf8::is_ascii_chars("base_oid"@));
    lemma_plain("base_oid"@);
    reveal_strlit("head_oid");
    assert(utf8::is_ascii_chars("head_oid"@));
    lemma_plain("head_oid"@);
    reveal_strlit("head_kind");
    assert(utf8::is_ascii_chars("head_kind"@));
    lemma_plain("head_kind"@);
    reveal_strlit("measured_instead");
    assert(utf8::is_ascii_chars("measured_instead"@));
    lemma_plain("measured_instead"@);
    reveal_strlit("withheld_paths");
    assert(utf8::is_ascii_chars("withheld_paths"@));
    lemma_plain("withheld_paths"@);
    reveal_strlit("unread_paths");
    assert(utf8::is_ascii_chars("unread_paths"@));
    lemma_plain("unread_paths"@);
    reveal_strlit("iteration");
    assert(utf8::is_ascii_chars("iteration"@));
    lemma_plain("iteration"@);
    reveal_strlit("findings");
    assert(utf8::is_ascii_chars("findings"@));
    lemma_plain("findings"@);
    reveal_strlit("total_findings");
    assert(utf8::is_ascii_chars("total_findings"@));
    lemma_plain("total_findings"@);
    reveal_strlit("reasons");
    assert(utf8::is_ascii_chars("reasons"@));
    lemma_plain("reasons"@);
    reveal_strlit("total_reasons");
    assert(utf8::is_ascii_chars("total_reasons"@));
    lemma_plain("total_reasons"@);
    reveal_strlit("truncated");
    assert(utf8::is_ascii_chars("truncated"@));
    lemma_plain("truncated"@);
    reveal_strlit("count");
    assert(utf8::is_ascii_chars("count"@));
    lemma_plain("count"@);
    reveal_strlit("cap");
    assert(utf8::is_ascii_chars("cap"@));
    lemma_plain("cap"@);
    reveal_strlit("escalated");
    assert(utf8::is_ascii_chars("escalated"@));
    lemma_plain("escalated"@);
}

proof fn lemma_words(v: Verdict, a: Attestation, c: Completeness, h: HeadKind)
    ensures
        weight(v.wire_name()) <= 17,
        weight(a.wire_name()) <= 25,
        weight(c.wire_name()) <= 14,
        weight(h.wire_name()) <= 20,
        weight("agent-mode"@) == 10,
{
    reveal(weight);
    reveal_strlit("pass");
    assert(utf8::is_ascii_chars("pass"@));
    lemma_plain("pass"@);
    reveal_strlit("advise");
    assert(utf8::is_ascii_chars("advise"@));
    lemma_plain("advise"@);
    reveal_strlit("block");
    assert(utf8::is_ascii_chars("block"@));
    lemma_plain("block"@);
    reveal_strlit("escalate_to_human");
    assert(utf8::is_ascii_chars("escalate_to_human"@));
    lemma_plain("escalate_to_human"@);
    reveal_strlit("confirmed");
    assert(utf8::is_ascii_chars("confirmed"@));
    lemma_plain("confirmed"@);
    reveal_strlit("confirmed-static");
    assert(utf8::is_ascii_chars("confirmed-static"@));
    lemma_plain("confirmed-static"@);
    reveal_strlit("divergent");
    assert(utf8::is_ascii_chars("divergent"@));
    lemma_plain("divergent"@);
    reveal_strlit("unwitnessed");
    assert(utf8::is_ascii_chars("unwitnessed"@));
    lemma_plain("unwitnessed"@);
    reveal_strlit("unwitnessed-version-skew");
    assert(utf8::is_ascii_chars("unwitnessed-version-skew"@));
    lemma_plain("unwitnessed-version-skew"@);
    reveal_strlit("unwitnessed-base-mismatch");
    assert(utf8::is_ascii_chars("unwitnessed-base-mismatch"@));
    lemma_plain("unwitnessed-base-mismatch"@);
    reveal_strlit("complete");
    assert(utf8::is_ascii_chars("complete"@));
    lemma_plain("complete"@);
    reveal_strlit("partial");
    assert(utf8::is_ascii_chars("partial"@));
    lemma_plain("partial"@);
    reveal_strlit("parse-degraded");
    assert(utf8::is_ascii_chars("parse-degraded"@));
    lemma_plain("parse-degraded"@);
    reveal_strlit("commit");
    assert(utf8::is_ascii_chars("commit"@));
    lemma_plain("commit"@);
    reveal_strlit("uncommitted-worktree");
    assert(utf8::is_ascii_chars("uncommitted-worktree"@));
    lemma_plain("uncommitted-worktree"@);
    reveal_strlit("uncommitted-index");
    assert(utf8::is_ascii_chars("uncommitted-index"@));
    lemma_plain("uncommitted-index"@);
    reveal_strlit("agent-mode");
    assert(utf8::is_ascii_chars("agent-mode"@));
    lemma_plain("agent-mode"@);
}

proof fn lemma_iteration(state: IterationState)
    ensures
        size(state.json_model()) <= 141,
{
    lemma_keys();
    lemma_number(state.count);
    lemma_number(state.cap);
    lemma_truth(state.escalated);
    let none = Seq::<(Seq<char>, JsonModel)>::empty();
    lemma_no_rows();
    let a = ("count"@, JsonModel::Whole(state.count as int));
    let b = ("cap"@, JsonModel::Whole(state.cap as int));
    let c = ("escalated"@, JsonModel::Bool(state.escalated));
    lemma_row_pushed(none, a);
    lemma_row_pushed(none.push(a), b);
    lemma_row_pushed(none.push(a).push(b), c);
    assert(state.json_model()->Members_0 =~= none.push(a).push(b).push(c));
    lemma_object(none.push(a).push(b).push(c));
}

proof fn lemma_empty_list(items: Seq<JsonModel>)
    requires
        items.len() == 0,
    ensures
        size(JsonModel::List(items)) == 2,
{
    reveal(size);
    assert(canonical::encoded_items(items) =~= Seq::empty());
    let e = canonical::encode(JsonModel::List(items));
    assert(e =~= seq!['[', ']']);
    lemma_plain(e);
}

/// What a profile takes at most before any reason or finding.
pub open spec fn header_room(bounds: AgentProfileBounds) -> int {
    2100 + 12 * bounds.max_string_bytes + 6 * bounds.max_hint_bytes
}

proof fn lemma_row_taken(rows: Seq<(Seq<char>, JsonModel)>, i: int)
    requires
        0 <= i < rows.len(),
    ensures
        row_total(rows.take(i + 1)) == row_total(rows.take(i)) + row_cost(rows[i]),
{
    assert(rows.take(i + 1) =~= rows.take(i).push(rows[i]));
    lemma_row_pushed(rows.take(i), rows[i]);
}

/// Whether a profile lists nothing, under strings that were clipped.
spec fn is_bare(p: AgentProfileModel, bounds: AgentProfileBounds) -> bool {
    &&& p.findings.len() == 0
    &&& p.reasons.len() == 0
    &&& p.profile == "agent-mode"@
    &&& weight(p.base_oid) <= bounds.max_string_bytes
    &&& weight(p.head_oid) <= bounds.max_string_bytes
    &&& p.measured_instead matches Some(s) ==> weight(s) <= bounds.max_hint_bytes
}

proof fn lemma_leading_rows(p: AgentProfileModel, bounds: AgentProfileBounds)
    requires
        is_bare(p, bounds),
    ensures
        row_total(p.json_model()->Members_0.take(10)) <= 1238 + 12 * bounds.max_string_bytes,
{
    let rows = p.json_model()->Members_0;
    lemma_keys();
    lemma_words(p.verdict, p.attestation, p.completeness, p.head_kind);
    lemma_text(p.profile);
    lemma_text(p.verdict.wire_name());
    lemma_text(p.attestation.wire_name());
    lemma_text(p.completeness.wire_name());
    lemma_text(p.head_kind.wire_name());
    lemma_text(p.base_oid);
    lemma_text(p.head_oid);
    lemma_number(p.schema_version);
    lemma_truth(p.verdict_invalid);
    lemma_truth(p.counts_downstream);
    lemma_no_rows();
    assert(rows.take(0) =~= Seq::empty());
    lemma_row_taken(rows, 0);
    lemma_row_taken(rows, 1);
    lemma_row_taken(rows, 2);
    lemma_row_taken(rows, 3);
    lemma_row_taken(rows, 4);
    lemma_row_taken(rows, 5);
    lemma_row_taken(rows, 6);
    lemma_row_taken(rows, 7);
    lemma_row_taken(rows, 8);
    lemma_row_taken(rows, 9);
}

proof fn lemma_bare_profile(p: AgentProfileModel, bounds: AgentProfileBounds)
    requires
        is_bare(p, bounds),
    ensures
        size(p.json_model()) <= header_room(bounds),
{
    let rows = p.json_model()->Members_0;
    lemma_leading_rows(p, bounds);
    lemma_keys();
    lemma_number(p.withheld_paths);
    lemma_number(p.unread_paths);
    lemma_number(p.total_findings);
    lemma_number(p.total_reasons);
    lemma_truth(p.truncated);
    lemma_iteration(p.iteration);
    lemma_empty_list(p.findings.map_values(|f: AgentFindingModel| f.json_model()));
    lemma_empty_list(p.reasons.map_values(|r: AgentReasonModel| r.json_model()));
    lemma_null();
    if let Some(s) = p.measured_instead {
        lemma_text(s);
    }
    lemma_row_taken(rows, 10);
    lemma_row_taken(rows, 11);
    lemma_row_taken(rows, 12);
    lemma_row_taken(rows, 13);
    lemma_row_taken(rows, 14);
    lemma_row_taken(rows, 15);
    lemma_row_taken(rows, 16);
    lemma_row_taken(rows, 17);
    lemma_row_taken(rows, 18);
    assert(rows.take(19) =~= rows);
    lemma_object(rows);
}

// --- the budget -----------------------------------------------------------

/// Whether two profiles differ in nothing but what they list.
spec fn same_header(p: AgentProfileModel, q: AgentProfileModel) -> bool {
    q == AgentProfileModel {
        findings: q.findings,
        reasons: q.reasons,
        truncated: q.truncated,
        ..p
    }
}

proof fn lemma_reasons_keep_header(
    p: AgentProfileModel,
    reasons: Seq<AgentReasonModel>,
    budget: nat,
)
    ensures
        same_header(p, agent_profile::filled_with_reasons(p, reasons, budget)),
    decreases reasons.len(),
{
    if reasons.len() > 0 && p.with_reason(reasons[0]).encoded_size() <= budget {
        lemma_reasons_keep_header(p.with_reason(reasons[0]), reasons.drop_first(), budget);
    }
}

proof fn lemma_findings_keep_header(
    p: AgentProfileModel,
    findings: Seq<AgentFindingModel>,
    budget: nat,
)
    ensures
        same_header(p, agent_profile::filled_with_findings(p, findings, budget)),
    decreases findings.len(),
{
    if findings.len() > 0 && p.with_finding(findings[0]).encoded_size() <= budget {
        lemma_findings_keep_header(p.with_finding(findings[0]), findings.drop_first(), budget);
    }
}

/// A profile never exceeds its budget, whatever the record holds, where the
/// budget has room for a header.
pub proof fn lemma_no_profile_exceeds_its_budget(
    record: MeasurementRecord,
    bounds: AgentProfileBounds,
)
    requires
        header_room(bounds) <= bounds.budget_bytes,
    ensures
        agent_profile::profile_of(record, bounds).encoded_size() <= bounds.budget_bytes,
{
    let p = agent_profile::profile_of(record, bounds);
    let head = agent_profile::header(record, bounds);
    let budget = bounds.budget_bytes as nat;
    agent_profile::lemma_profile_stays_inside_its_budget(record, bounds);
    lemma_reasons_keep_header(head, agent_profile::candidate_reasons(record, bounds), budget);
    lemma_findings_keep_header(
        agent_profile::explained(record, bounds),
        agent_profile::candidate_findings(record, bounds),
        budget,
    );
    assert(same_header(head, p));
    text::lemma_clipped(record.compare_context.base_oid@, bounds.max_string_bytes as int);
    text::lemma_clipped(record.compare_context.head_oid@, bounds.max_string_bytes as int);
    if let Some(s) = record.substitution {
        text::lemma_clipped(s.measured@, bounds.max_hint_bytes as int);
    }
    if p.reasons.len() == 0 && p.findings.len() == 0 {
        assert(p.encoded_size() == size(p.json_model())) by {
            reveal(size);
        }
        reveal(weight);
        lemma_bare_profile(p, bounds);
    }
}

} // verus!
