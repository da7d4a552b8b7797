//! The runtime registry loader: the evidence rules, live in the measurement path.
//!
//! [`load_files`] refuses to return a registry that the lint would fail the
//! build over. There is one implementation of the rule and two call sites, so
//! the two gates cannot drift into disagreeing.
//!
//! One lint rule is not about evidence at all: how many claims fall due for
//! re-review in one month. A binary that refused to measure over that would
//! have stopped working for a reason unrelated to any number it reports, so a
//! breach of it is a notice here and an error in the lint. Notices ride along:
//! a demotion nobody renders is a demotion that did not happen.
use vstd::prelude::*;

use crate::date::{Date, DateModel};
use crate::policy::RegistryPolicy;
use crate::registry;
use crate::registry::{
    Diagnostic, DiagnosticModel, DiagnosticSeverity, EngineRegistryFile, Registry, RegistryError,
    ResolvedModel,
};
use crate::schema::enums::EngineFamily;
use crate::sorting;
use crate::strmap;
use crate::strmap::{StrMap, StrSet};
use crate::text;
use crate::text::same_text;

verus! {

/// The lint codes that are about the re-review schedule rather than about
/// evidence.
pub const SCHEDULING_HYGIENE_CODES: [&'static str; 1] = ["registry.expiry-stagger"];

/// A registry directory that could not be turned into a registry.
#[derive(Debug, Clone, PartialEq, Eq)]
pub enum RegistryLoadError {
    /// The directory could not be read, or one of its files could not.
    Io {
        /// The path being read.
        path: String,
        /// What went wrong.
        reason: String,
    },
    /// A file is not valid TOML for the registry schema.
    Parse(RegistryError),
    /// The registry parsed but does not satisfy the lint.
    Lint {
        /// The directory that failed.
        path: String,
        /// One entry per lint error, in the lint's own words.
        errors: Vec<String>,
    },
}

/// A merged registry, and what the lint said about it on the way through.
#[derive(Debug, Clone, PartialEq, Eq)]
pub struct LoadedRegistry {
    /// The merged claims and metric declarations.
    pub registry: Registry,
    /// Every engine the registry declares a file for: the roster assembly holds
    /// itself to.
    pub expected_engines: StrSet,
    /// The family each declared engine's file states, keyed by engine id.
    pub engine_families: StrMap<EngineFamily>,
    /// Findings that do not refuse: stale claims, uncited claims, a crowded
    /// schedule.
    pub notices: Vec<Diagnostic>,
    /// The date expiries were evaluated against.
    pub as_of: Date,
}

/// The ids of the claims among the first `n` that are stale.
pub open spec fn stale_among(claims: Seq<(Seq<char>, ResolvedModel)>, n: int) -> Seq<Seq<char>>
    decreases n,
{
    if n <= 0 {
        Seq::empty()
    } else if claims[n - 1].1.stale {
        stale_among(claims, n - 1).push(claims[n - 1].1.claim.claim_id)
    } else {
        stale_among(claims, n - 1)
    }
}

/// The order of strings, as a function.
pub open spec fn id_order() -> spec_fn(Seq<char>, Seq<char>) -> bool {
    |a: Seq<char>, b: Seq<char>| text::text_less(a, b)
}

fn in_order(names: Vec<String>) -> (r: Vec<String>)
    ensures
        text::texts(r@) == sorting::sorted(text::texts(names@), id_order()),
{
    let ghost found = names@;
    let ghost f = |s: String| s@;
    let ghost lt = |a: String, b: String| text::text_less(a@, b@);
    let less = |a: &String, b: &String| -> (r: bool)
        ensures
            r == text::text_less(a@, b@),
        { text::text_before(a.as_str(), b.as_str()) };
    let ordered = sorting::stable_sort(names, less, Ghost(lt));
    proof {
        sorting::lemma_sorted_map(found, f, lt, id_order());
        assert(found.map_values(f) =~= text::texts(found));
        assert(ordered@.map_values(f) =~= text::texts(ordered@));
    }
    ordered
}

/// The ids of every stale claim, in order.
pub open spec fn stale_ids(claims: Seq<(Seq<char>, ResolvedModel)>) -> Seq<Seq<char>> {
    sorting::sorted(stale_among(claims, claims.len() as int), id_order())
}

impl LoadedRegistry {
    /// Claim ids the loader marked stale at [`Self::as_of`].
    pub fn stale_claim_ids(&self) -> (r: Vec<String>)
        ensures
            text::texts(r@) == stale_ids(self.registry.claims@),
    {
        let claims = &self.registry.claims;
        let n = claims.len();
        let mut ids: Vec<String> = Vec::new();
        let mut i: usize = 0;
        proof {
            assert(text::texts(ids@) =~= Seq::empty());
        }
        while i < n
            invariant
                i <= n,
                n == claims@.len(),
                text::texts(ids@) == stale_among(claims@, i as int),
            decreases n - i,
        {
            let resolved = claims.value_at(i);
            let ghost before = ids@;
            if resolved.stale {
                ids.push(resolved.claim.claim_id.clone());
                proof {
                    assert(text::texts(ids@) =~= text::texts(before).push(
                        resolved.claim.claim_id@,
                    ));
                }
            }
            i = i + 1;
        }
        in_order(ids)
    }
}

/// Whether a code is about the re-review schedule.
pub open spec fn scheduling_code(code: Seq<char>) -> bool {
    exists|i: int|
        0 <= i < SCHEDULING_HYGIENE_CODES@.len() && code == (#[trigger] SCHEDULING_HYGIENE_CODES@[i])@
}

/// Whether a finding is about the re-review schedule.
pub open spec fn is_scheduling(d: DiagnosticModel) -> bool {
    scheduling_code(d.code)
}

/// Whether a code is about the re-review schedule.
fn about_scheduling(code: &str) -> (r: bool)
    ensures
        r == scheduling_code(code@),
{
    let codes = SCHEDULING_HYGIENE_CODES;
    let mut i: usize = 0;
    while i < codes.len()
        invariant
            codes == SCHEDULING_HYGIENE_CODES,
            i <= codes.len(),
            forall|j: int| 0 <= j < i ==> code@ != (#[trigger] codes@[j])@,
        decreases codes.len() - i,
    {
        if same_text(code, codes[i]) {
            return true;
        }
        i = i + 1;
    }
    false
}

/// Whether a finding refuses the registry.
pub open spec fn is_fatal(d: DiagnosticModel) -> bool {
    d.severity == DiagnosticSeverity::Error && !is_scheduling(d)
}

/// Whether a finding rides along.
pub open spec fn rides_along(d: DiagnosticModel) -> bool {
    d.severity == DiagnosticSeverity::Notice || is_scheduling(d)
}

/// A finding on one line.
pub open spec fn finding_line(d: DiagnosticModel) -> Seq<char> {
    d.code + "["@ + d.location + "]: "@ + d.message
}

/// The findings among these that refuse the registry, one line each.
pub open spec fn fatal_lines(s: Seq<DiagnosticModel>) -> Seq<Seq<char>>
    decreases s.len(),
{
    if s.len() == 0 {
        Seq::empty()
    } else if is_fatal(s.last()) {
        fatal_lines(s.drop_last()).push(finding_line(s.last()))
    } else {
        fatal_lines(s.drop_last())
    }
}

/// The findings among these that ride along.
pub open spec fn kept_notices(s: Seq<DiagnosticModel>) -> Seq<DiagnosticModel>
    decreases s.len(),
{
    if s.len() == 0 {
        Seq::empty()
    } else if rides_along(s.last()) {
        kept_notices(s.drop_last()).push(s.last())
    } else {
        kept_notices(s.drop_last())
    }
}

/// The engines the first `n` files declare: once each, in order.
pub open spec fn engines_declared(files: Seq<(String, EngineRegistryFile)>, n: int) -> Seq<
    (Seq<char>, ()),
>
    decreases n,
{
    if n <= 0 {
        Seq::empty()
    } else {
        strmap::inserted(engines_declared(files, n - 1), files[n - 1].1.engine@, ())
    }
}

/// The family each engine of the first `n` files has; the later file counts.
pub open spec fn families_declared(files: Seq<(String, EngineRegistryFile)>, n: int) -> Seq<
    (Seq<char>, EngineFamily),
>
    decreases n,
{
    if n <= 0 {
        Seq::empty()
    } else {
        strmap::inserted(
            families_declared(files, n - 1),
            files[n - 1].1.engine@,
            files[n - 1].1.family,
        )
    }
}

fn line_of(d: &Diagnostic) -> (r: String)
    ensures
        r@ == finding_line(d@),
{
    let mut out = d.code.to_owned();
    out.append("[");
    out.append(d.location.as_str());
    out.append("]: ");
    out.append(d.message.as_str());
    out
}

fn fatal(diagnostics: &Vec<Diagnostic>) -> (r: Vec<String>)
    ensures
        text::texts(r@) == fatal_lines(registry::diagnostics_of(diagnostics@)),
{
    let ghost all = registry::diagnostics_of(diagnostics@);
    let mut out: Vec<String> = Vec::new();
    let mut i: usize = 0;
    proof {
        assert(text::texts(out@) =~= fatal_lines(all.take(0)));
    }
    while i < diagnostics.len()
        invariant
            i <= diagnostics.len(),
            all == registry::diagnostics_of(diagnostics@),
            text::texts(out@) == fatal_lines(all.take(i as int)),
        decreases diagnostics.len() - i,
    {
        let d = &diagnostics[i];
        let ghost before = out@;
        proof {
            assert(all.take(i + 1).drop_last() =~= all.take(i as int));
            assert(all.take(i + 1).last() == d@);
        }
        if d.severity == DiagnosticSeverity::Error && !about_scheduling(d.code) {
            out.push(line_of(d));
            proof {
                assert(text::texts(out@) =~= text::texts(before).push(finding_line(d@)));
            }
        }
        i = i + 1;
    }
    proof {
        assert(all.take(i as int) =~= all);
    }
    out
}

fn keep_notices(diagnostics: Vec<Diagnostic>) -> (r: Vec<Diagnostic>)
    ensures
        registry::diagnostics_of(r@) == kept_notices(registry::diagnostics_of(diagnostics@)),
{
    let ghost all = registry::diagnostics_of(diagnostics@);
    let mut out: Vec<Diagnostic> = Vec::new();
    let mut i: usize = 0;
    proof {
        assert(registry::diagnostics_of(out@) =~= kept_notices(all.take(0)));
    }
    while i < diagnostics.len()
        invariant
            i <= diagnostics.len(),
            all == registry::diagnostics_of(diagnostics@),
            registry::diagnostics_of(out@) == kept_notices(all.take(i as int)),
        decreases diagnostics.len() - i,
    {
        let d = &diagnostics[i];
        let ghost before = out@;
        proof {
            assert(all.take(i + 1).drop_last() =~= all.take(i as int));
            assert(all.take(i + 1).last() == d@);
        }
        if d.severity == DiagnosticSeverity::Notice || about_scheduling(d.code) {
            out.push(
                Diagnostic {
                    code: d.code,
                    severity: d.severity,
                    location: d.location.clone(),
                    message: d.message.clone(),
                },
            );
            proof {
                assert(registry::diagnostics_of(out@) =~= registry::diagnostics_of(before).push(
                    d@,
                ));
            }
        }
        i = i + 1;
    }
    proof {
        assert(all.take(i as int) =~= all);
    }
    out
}

/// What the lint finds in these files.
pub open spec fn findings(
    files: Seq<(String, EngineRegistryFile)>,
    policy: RegistryPolicy,
    as_of: DateModel,
) -> Seq<DiagnosticModel> {
    registry::all_findings(
        registry::after_files(files, as_of, files.len() as int),
        policy,
    )
}

/// Whether a loaded registry is what these files merge to.
pub open spec fn loads_to(
    loaded: LoadedRegistry,
    files: Seq<(String, EngineRegistryFile)>,
    policy: RegistryPolicy,
    as_of: DateModel,
) -> bool {
    let m = registry::after_files(files, as_of, files.len() as int);
    &&& loaded.registry.claims@ == m.claims
    &&& loaded.registry.metrics@ == m.metrics
    &&& loaded.registry.metric_sources@ == m.sources
    &&& loaded.expected_engines@ == engines_declared(files, files.len() as int)
    &&& loaded.engine_families@ == families_declared(files, files.len() as int)
    &&& registry::diagnostics_of(loaded.notices@) == kept_notices(findings(files, policy, as_of))
    &&& loaded.as_of@ == as_of
}

/// Whether a file name has the extension of a registry file. A name that is
/// nothing but the extension has none.
pub open spec fn is_registry_name(name: Seq<char>) -> bool {
    text::ends_in(name, ".toml"@) && name.len() > 5
}

/// The registry files among the first `n` directory entries.
pub open spec fn registry_names(entries: Seq<(String, bool)>, n: int) -> Seq<Seq<char>>
    decreases n,
{
    if n <= 0 {
        Seq::empty()
    } else if entries[n - 1].1 && is_registry_name(entries[n - 1].0@) {
        registry_names(entries, n - 1).push(entries[n - 1].0@)
    } else {
        registry_names(entries, n - 1)
    }
}

/// Which entries of a directory to read, and in which order: the registry files,
/// by name, so that two loads of one directory report in the same order.
///
/// Each entry is its name and whether it is a file.
pub fn files_to_read(entries: &[(String, bool)]) -> (r: Vec<String>)
    ensures
        text::texts(r@) == sorting::sorted(
            registry_names(entries@, entries@.len() as int),
            id_order(),
        ),
{
    let mut names: Vec<String> = Vec::new();
    let mut i: usize = 0;
    proof {
        assert(text::texts(names@) =~= Seq::empty());
    }
    while i < entries.len()
        invariant
            i <= entries.len(),
            text::texts(names@) == registry_names(entries@, i as int),
        decreases entries.len() - i,
    {
        let name = &entries[i].0;
        let ghost before = names@;
        if entries[i].1 && text::text_ends_with(name.as_str(), ".toml")
            && name.as_str().unicode_len() > 5 {
            names.push(name.clone());
            proof {
                assert(text::texts(names@) =~= text::texts(before).push(name@));
            }
        }
        i = i + 1;
    }
    in_order(names)
}

/// Lint registry files and merge them, refusing what the lint fails the build
/// over.
pub fn load_files(
    files: &[(String, EngineRegistryFile)],
    policy: &RegistryPolicy,
    as_of: Date,
    location: &str,
) -> (r: Result<LoadedRegistry, RegistryLoadError>)
    ensures
        ({
            let refused = fatal_lines(findings(files@, *policy, as_of@));
            if refused.len() == 0 {
                r matches Ok(loaded) && loads_to(loaded, files@, *policy, as_of@)
            } else {
                r matches Err(RegistryLoadError::Lint { path, errors }) && path@ == location@
                    && text::texts(errors@) == refused
            }
        }),
{
    let (registry, report) = registry::lint(files, policy, as_of);
    let refused = fatal(&report.diagnostics);
    proof {
        assert(text::texts(refused@).len() == refused@.len());
    }
    if refused.len() > 0 {
        return Err(RegistryLoadError::Lint { path: location.to_owned(), errors: refused });
    }
    let notices = keep_notices(report.diagnostics);
    let mut expected_engines = StrSet::new();
    let mut engine_families: StrMap<EngineFamily> = StrMap::new();
    let mut i: usize = 0;
    proof {
        assert(expected_engines@ =~= Seq::empty());
        assert(engine_families@ =~= Seq::empty());
    }
    while i < files.len()
        invariant
            i <= files.len(),
            expected_engines@ == engines_declared(files@, i as int),
            engine_families@ == families_declared(files@, i as int),
        decreases files.len() - i,
    {
        expected_engines.insert(files[i].1.engine.clone(), ());
        engine_families.insert(files[i].1.engine.clone(), files[i].1.family);
        i = i + 1;
    }
    Ok(LoadedRegistry { registry, expected_engines, engine_families, notices, as_of })
}

// --- laws -----------------------------------------------------------------

/// A registry loads exactly when no finding refuses it. In particular a crowded
/// re-review schedule and a stale claim never stop a measurement, and every
/// finding either refuses the registry or rides along.
pub proof fn lemma_only_fatal_findings_refuse(s: Seq<DiagnosticModel>)
    ensures
        fatal_lines(s).len() == 0 <==> forall|i: int|
            0 <= i < s.len() ==> !is_fatal(#[trigger] s[i]),
        fatal_lines(s).len() + kept_notices(s).len() == s.len(),
    decreases s.len(),
{
    if s.len() > 0 {
        let rest = s.drop_last();
        lemma_only_fatal_findings_refuse(rest);
        if fatal_lines(s).len() == 0 {
            assert forall|i: int| 0 <= i < s.len() implies !is_fatal(#[trigger] s[i]) by {
                if i < rest.len() {
                    assert(rest[i] == s[i]);
                }
            }
        } else {
            if is_fatal(s.last()) {
                assert(is_fatal(s[s.len() - 1]));
            } else {
                let i = choose|i: int| 0 <= i < rest.len() && is_fatal(#[trigger] rest[i]);
                assert(is_fatal(s[i]));
            }
        }
    }
}

/// What refuses a registry, said of the finding itself: it fails the build, and it
/// is about something other than how crowded the re-review schedule is.
pub proof fn lemma_what_refuses_a_registry(d: DiagnosticModel)
    ensures
        is_fatal(d) <==> d.severity == DiagnosticSeverity::Error && d.code
            != "registry.expiry-stagger"@,
        rides_along(d) <==> !is_fatal(d),
{
    let codes = SCHEDULING_HYGIENE_CODES@;
    assert(codes.len() == 1);
    assert(codes[0]@ == "registry.expiry-stagger"@);
    if d.code == "registry.expiry-stagger"@ {
        assert(d.code == codes[0]@);
    }
}

/// A refusal quotes exactly the findings that refuse, and a registry that loads
/// carries exactly the others.
pub proof fn lemma_every_finding_is_quoted_or_kept(s: Seq<DiagnosticModel>, d: DiagnosticModel)
    ensures
        s.contains(d) && is_fatal(d) ==> fatal_lines(s).contains(
            d.code + "["@ + d.location + "]: "@ + d.message,
        ),
        kept_notices(s).contains(d) <==> s.contains(d) && !is_fatal(d),
    decreases s.len(),
{
    lemma_what_refuses_a_registry(d);
    if s.len() > 0 {
        let rest = s.drop_last();
        let last = s.last();
        lemma_every_finding_is_quoted_or_kept(rest, d);
        lemma_what_refuses_a_registry(last);
        if s.contains(d) && d != last {
            let i = choose|i: int| 0 <= i < s.len() && s[i] == d;
            assert(rest[i] == d);
        }
        if rest.contains(d) {
            let i = choose|i: int| 0 <= i < rest.len() && rest[i] == d;
            assert(s[i] == d);
        }
        assert(s[s.len() - 1] == last);
        if is_fatal(d) && s.contains(d) {
            let line = finding_line(d);
            if d == last {
                assert(fatal_lines(s)[fatal_lines(s).len() - 1] == line);
            } else {
                let i = choose|i: int|
                    0 <= i < fatal_lines(rest).len() && fatal_lines(rest)[i] == line;
                assert(fatal_lines(s)[i] == line);
            }
        }
        if kept_notices(s).contains(d) {
            let i = choose|i: int| 0 <= i < kept_notices(s).len() && kept_notices(s)[i] == d;
            if i < kept_notices(rest).len() {
                assert(kept_notices(rest)[i] == d);
            }
        }
        if s.contains(d) && !is_fatal(d) {
            if d == last {
                assert(kept_notices(s)[kept_notices(s).len() - 1] == d);
            } else {
                let i = choose|i: int|
                    0 <= i < kept_notices(rest).len() && kept_notices(rest)[i] == d;
                assert(kept_notices(s)[i] == d);
            }
        }
    }
}

proof fn lemma_stale_among(claims: Seq<(Seq<char>, ResolvedModel)>, n: int, id: Seq<char>)
    requires
        0 <= n <= claims.len(),
    ensures
        stale_among(claims, n).contains(id) <==> exists|i: int|
            0 <= i < n && (#[trigger] claims[i]).1.stale && claims[i].1.claim.claim_id == id,
    decreases n,
{
    if n > 0 {
        let before = stale_among(claims, n - 1);
        let after = stale_among(claims, n);
        lemma_stale_among(claims, n - 1, id);
        if before.contains(id) {
            let p = choose|p: int| 0 <= p < before.len() && before[p] == id;
            assert(after[p] == id);
        }
        if after.contains(id) {
            let p = choose|p: int| 0 <= p < after.len() && after[p] == id;
            if p < before.len() {
                assert(before[p] == id);
            } else {
                assert(claims[n - 1].1.stale);
            }
        }
        if claims[n - 1].1.stale && claims[n - 1].1.claim.claim_id == id {
            assert(after[after.len() - 1] == id);
        }
    }
}

/// The stale claims of a registry are exactly the ones it marks stale, by id, in
/// order.
pub proof fn lemma_the_stale_claims(claims: Seq<(Seq<char>, ResolvedModel)>, id: Seq<char>)
    ensures
        stale_ids(claims).contains(id) <==> exists|i: int|
            0 <= i < claims.len() && (#[trigger] claims[i]).1.stale && claims[i].1.claim.claim_id
                == id,
        forall|i: int, j: int|
            0 <= i < j < stale_ids(claims).len() ==> !text::text_less(
                #[trigger] stale_ids(claims)[j],
                #[trigger] stale_ids(claims)[i],
            ),
{
    broadcast use vstd::seq_lib::group_to_multiset_ensures;

    let found = stale_among(claims, claims.len() as int);
    lemma_stale_among(claims, claims.len() as int, id);
    sorting::lemma_sorted_keeps_items(found, id_order());
    sorting::lemma_order_by_key(id_order(), |s: Seq<char>| text::byte_key(s));
    sorting::lemma_sorted_ascending(found, id_order());
    let ordered = stale_ids(claims);
    assert(ordered.to_multiset().count(id) == found.to_multiset().count(id));
    assert(ordered.contains(id) <==> ordered.to_multiset().count(id) > 0);
    assert(found.contains(id) <==> found.to_multiset().count(id) > 0);
    assert forall|i: int, j: int| 0 <= i < j < ordered.len() implies !text::text_less(
        #[trigger] ordered[j],
        #[trigger] ordered[i],
    ) by {
        assert(!id_order()(ordered[j], ordered[i]));
    }
}

/// The engines a registry expects are the ones some file is about, and the family
/// of each is the one the last file about it states.
pub proof fn lemma_the_engines_declared(
    files: Seq<(String, EngineRegistryFile)>,
    n: int,
    engine: Seq<char>,
)
    requires
        0 <= n <= files.len(),
    ensures
        strmap::keys_ascend(engines_declared(files, n)),
        strmap::keys_ascend(families_declared(files, n)),
        strmap::has_key(engines_declared(files, n), engine) <==> exists|i: int|
            0 <= i < n && (#[trigger] files[i]).1.engine@ == engine,
        strmap::lookup(families_declared(files, n), engine) is Some <==> exists|i: int|
            0 <= i < n && (#[trigger] files[i]).1.engine@ == engine,
        strmap::lookup(families_declared(files, n), engine) matches Some(family) ==> exists|i: int|
            0 <= i < n && (#[trigger] files[i]).1.engine@ == engine && files[i].1.family == family
                && forall|j: int| i < j < n ==> (#[trigger] files[j]).1.engine@ != engine,
    decreases n,
{
    if n > 0 {
        lemma_the_engines_declared(files, n - 1, engine);
        let last = files[n - 1].1;
        strmap::lemma_inserted(engines_declared(files, n - 1), last.engine@, ());
        strmap::lemma_inserted(families_declared(files, n - 1), last.engine@, last.family);
        if last.engine@ == engine {
            assert(files[n - 1].1.engine@ == engine && files[n - 1].1.family == last.family);
        } else if exists|i: int| 0 <= i < n - 1 && (#[trigger] files[i]).1.engine@ == engine {
            let family = strmap::lookup(families_declared(files, n - 1), engine)->Some_0;
            let i = choose|i: int|
                0 <= i < n - 1 && (#[trigger] files[i]).1.engine@ == engine && files[i].1.family
                    == family && forall|j: int|
                    i < j < n - 1 ==> (#[trigger] files[j]).1.engine@ != engine;
            assert(files[i].1.engine@ == engine && files[i].1.family == family);
            assert forall|j: int| i < j < n implies (#[trigger] files[j]).1.engine@ != engine by {}
        }
    }
}

proof fn lemma_names_among(entries: Seq<(String, bool)>, n: int, name: Seq<char>)
    requires
        0 <= n <= entries.len(),
    ensures
        registry_names(entries, n).contains(name) <==> name.len() > 5 && text::ends_in(
            name,
            ".toml"@,
        ) && exists|i: int| 0 <= i < n && (#[trigger] entries[i]).1 && entries[i].0@ == name,
    decreases n,
{
    if n > 0 {
        let before = registry_names(entries, n - 1);
        let after = registry_names(entries, n);
        lemma_names_among(entries, n - 1, name);
        if before.contains(name) {
            let p = choose|p: int| 0 <= p < before.len() && before[p] == name;
            assert(after[p] == name);
        }
        if after.contains(name) {
            let p = choose|p: int| 0 <= p < after.len() && after[p] == name;
            if p < before.len() {
                assert(before[p] == name);
            } else {
                assert(entries[n - 1].1 && entries[n - 1].0@ == name);
            }
        }
        if entries[n - 1].1 && entries[n - 1].0@ == name && is_registry_name(name) {
            assert(after[after.len() - 1] == name);
        }
    }
}

/// Of a directory, the files whose name ends in `.toml` are read, and nothing else
/// is, in the order of their names.
pub proof fn lemma_which_files_are_read(entries: Seq<(String, bool)>, name: Seq<char>)
    ensures
        ({
            let read = sorting::sorted(
                registry_names(entries, entries.len() as int),
                id_order(),
            );
            &&& read.contains(name) <==> name.len() > 5 && text::ends_in(name, ".toml"@) && exists|
                i: int,
            |
                0 <= i < entries.len() && (#[trigger] entries[i]).1 && entries[i].0@ == name
            &&& forall|i: int, j: int|
                0 <= i < j < read.len() ==> !text::text_less(
                    #[trigger] read[j],
                    #[trigger] read[i],
                )
        }),
{
    broadcast use vstd::seq_lib::group_to_multiset_ensures;

    let found = registry_names(entries, entries.len() as int);
    let read = sorting::sorted(found, id_order());
    lemma_names_among(entries, entries.len() as int, name);
    sorting::lemma_sorted_keeps_items(found, id_order());
    sorting::lemma_order_by_key(id_order(), |s: Seq<char>| text::byte_key(s));
    sorting::lemma_sorted_ascending(found, id_order());
    assert(read.to_multiset().count(name) == found.to_multiset().count(name));
    assert(read.contains(name) <==> read.to_multiset().count(name) > 0);
    assert(found.contains(name) <==> found.to_multiset().count(name) > 0);
    assert forall|i: int, j: int| 0 <= i < j < read.len() implies !text::text_less(
        #[trigger] read[j],
        #[trigger] read[i],
    ) by {
        assert(!id_order()(read[j], read[i]));
    }
}

} // verus!
