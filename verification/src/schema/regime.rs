//! The engine-and-configuration tuple a number was produced under.
//!
//! Two measurements are only comparable when their regimes are equal. Every
//! result carries one, and every result digest binds it, so a regime change
//! cannot silently pass as an equal measurement.
use vstd::prelude::*;

use super::enums::EngineFamily;
use crate::canonical;
use crate::canonical::{member, object, string, string_map, Json, JsonModel};
use crate::strmap::StrMap;

verus! {

/// The configuration tuple for one engine family.
#[derive(Debug, Clone, PartialEq, Eq)]
pub enum MeasurementRegime {
    /// Parsing engines.
    Static {
        /// Version of the static-metrics engine.
        engine_version: String,
        /// Revision of the metric specification implemented.
        spec_revision: String,
        /// Language name to grammar version.
        grammars: StrMap<String>,
    },
    /// Token clone detection.
    Clones {
        /// Version of the clone-detection engine.
        engine_version: String,
        /// The matching algorithm.
        algorithm: String,
        /// Minimum clone length in tokens.
        min_tokens: u32,
        /// Rolling window width in tokens.
        window_tokens: u32,
        /// Revision of the token-normalization rules.
        normalization_revision: String,
    },
    /// Static tamper detectors.
    Tamper {
        /// Version of the tamper engine.
        engine_version: String,
        /// Which detectors were active, as a revision of the set.
        detector_set_revision: String,
        /// Version of the suppression and threshold rule pack.
        rule_pack_version: String,
    },
    /// History signals.
    Process {
        /// Version of the process engine.
        engine_version: String,
        /// Version of the git that read the history.
        git_version: String,
        /// History window in days, from policy.
        history_window_days: u32,
    },
    /// Coverage-report parsers. Parse-only, never executing.
    Artifacts {
        /// Version of the artifacts engine.
        engine_version: String,
        /// Report format to parser version.
        parser_versions: StrMap<String>,
    },
    /// The user test command, the one regime that executes code.
    Tests {
        /// Version of the tests engine.
        engine_version: String,
        /// The command run, verbatim.
        command: String,
        /// The isolation class the sandbox provided.
        sandbox: String,
    },
}

impl MeasurementRegime {
    /// The family a regime belongs to.
    pub open spec fn family_of(self) -> EngineFamily {
        match self {
            MeasurementRegime::Static { .. } => EngineFamily::Static,
            MeasurementRegime::Clones { .. } => EngineFamily::Clones,
            MeasurementRegime::Tamper { .. } => EngineFamily::Tamper,
            MeasurementRegime::Process { .. } => EngineFamily::Process,
            MeasurementRegime::Artifacts { .. } => EngineFamily::Artifacts,
            MeasurementRegime::Tests { .. } => EngineFamily::Tests,
        }
    }

    /// The family this regime belongs to.
    pub fn family(&self) -> (r: EngineFamily)
        ensures
            r == self.family_of(),
    {
        match self {
            MeasurementRegime::Static { .. } => EngineFamily::Static,
            MeasurementRegime::Clones { .. } => EngineFamily::Clones,
            MeasurementRegime::Tamper { .. } => EngineFamily::Tamper,
            MeasurementRegime::Process { .. } => EngineFamily::Process,
            MeasurementRegime::Artifacts { .. } => EngineFamily::Artifacts,
            MeasurementRegime::Tests { .. } => EngineFamily::Tests,
        }
    }

    /// The engine version a regime names.
    pub open spec fn version_of(self) -> Seq<char> {
        match self {
            MeasurementRegime::Static { engine_version, .. } => engine_version@,
            MeasurementRegime::Clones { engine_version, .. } => engine_version@,
            MeasurementRegime::Tamper { engine_version, .. } => engine_version@,
            MeasurementRegime::Process { engine_version, .. } => engine_version@,
            MeasurementRegime::Artifacts { engine_version, .. } => engine_version@,
            MeasurementRegime::Tests { engine_version, .. } => engine_version@,
        }
    }

    /// The engine version, whichever variant this is.
    pub fn engine_version(&self) -> (r: &str)
        ensures
            r@ == self.version_of(),
    {
        match self {
            MeasurementRegime::Static { engine_version, .. } => engine_version.as_str(),
            MeasurementRegime::Clones { engine_version, .. } => engine_version.as_str(),
            MeasurementRegime::Tamper { engine_version, .. } => engine_version.as_str(),
            MeasurementRegime::Process { engine_version, .. } => engine_version.as_str(),
            MeasurementRegime::Artifacts { engine_version, .. } => engine_version.as_str(),
            MeasurementRegime::Tests { engine_version, .. } => engine_version.as_str(),
        }
    }

    /// What a regime says on the wire.
    pub open spec fn json_model(self) -> JsonModel {
        let family = ("family"@, JsonModel::Text(self.family_of().wire_name()));
        let version = ("engine_version"@, JsonModel::Text(self.version_of()));
        match self {
            MeasurementRegime::Static { spec_revision, grammars, .. } => JsonModel::Members(
                seq![
                    family,
                    version,
                    ("spec_revision"@, JsonModel::Text(spec_revision@)),
                    ("grammars"@, canonical::text_map(grammars@)),
                ],
            ),
            MeasurementRegime::Clones {
                algorithm,
                min_tokens,
                window_tokens,
                normalization_revision,
                ..
            } => JsonModel::Members(
                seq![
                    family,
                    version,
                    ("algorithm"@, JsonModel::Text(algorithm@)),
                    ("min_tokens"@, JsonModel::Whole(min_tokens as int)),
                    ("window_tokens"@, JsonModel::Whole(window_tokens as int)),
                    ("normalization_revision"@, JsonModel::Text(normalization_revision@)),
                ],
            ),
            MeasurementRegime::Tamper { detector_set_revision, rule_pack_version, .. } =>
            JsonModel::Members(
                seq![
                    family,
                    version,
                    ("detector_set_revision"@, JsonModel::Text(detector_set_revision@)),
                    ("rule_pack_version"@, JsonModel::Text(rule_pack_version@)),
                ],
            ),
            MeasurementRegime::Process { git_version, history_window_days, .. } =>
            JsonModel::Members(
                seq![
                    family,
                    version,
                    ("git_version"@, JsonModel::Text(git_version@)),
                    ("history_window_days"@, JsonModel::Whole(history_window_days as int)),
                ],
            ),
            MeasurementRegime::Artifacts { parser_versions, .. } => JsonModel::Members(
                seq![family, version, ("parser_versions"@, canonical::text_map(parser_versions@))],
            ),
            MeasurementRegime::Tests { command, sandbox, .. } => JsonModel::Members(
                seq![
                    family,
                    version,
                    ("command"@, JsonModel::Text(command@)),
                    ("sandbox"@, JsonModel::Text(sandbox@)),
                ],
            ),
        }
    }

    /// This regime as it goes on the wire.
    pub fn to_json(&self) -> (j: Json)
        ensures
            j@ == self.json_model(),
    {
        let family = member("family", string(self.family().wire()));
        let version = member("engine_version", string(self.engine_version()));
        let ghost goal = self.json_model()->Members_0;
        let members: Vec<(String, Json)> = match self {
            MeasurementRegime::Static { spec_revision, grammars, .. } => vec![
                family,
                version,
                member("spec_revision", string(spec_revision.as_str())),
                member("grammars", string_map(grammars)),
            ],
            MeasurementRegime::Clones {
                algorithm,
                min_tokens,
                window_tokens,
                normalization_revision,
                ..
            } => vec![
                family,
                version,
                member("algorithm", string(algorithm.as_str())),
                member("min_tokens", Json::Unsigned(*min_tokens as u64)),
                member("window_tokens", Json::Unsigned(*window_tokens as u64)),
                member("normalization_revision", string(normalization_revision.as_str())),
            ],
            MeasurementRegime::Tamper { detector_set_revision, rule_pack_version, .. } => vec![
                family,
                version,
                member("detector_set_revision", string(detector_set_revision.as_str())),
                member("rule_pack_version", string(rule_pack_version.as_str())),
            ],
            MeasurementRegime::Process { git_version, history_window_days, .. } => vec![
                family,
                version,
                member("git_version", string(git_version.as_str())),
                member("history_window_days", Json::Unsigned(*history_window_days as u64)),
            ],
            MeasurementRegime::Artifacts { parser_versions, .. } => vec![
                family,
                version,
                member("parser_versions", string_map(parser_versions)),
            ],
            MeasurementRegime::Tests { command, sandbox, .. } => vec![
                family,
                version,
                member("command", string(command.as_str())),
                member("sandbox", string(sandbox.as_str())),
            ],
        };
        proof {
            assert(canonical::member_models(members@) =~= goal);
        }
        object(members)
    }
}

/// Which family each regime belongs to, and which version it names: the one that
/// stands in it, whatever else the regime records.
pub proof fn lemma_what_a_regime_names(x: MeasurementRegime)
    ensures
        x is Static <==> x.family_of() == EngineFamily::Static,
        x is Clones <==> x.family_of() == EngineFamily::Clones,
        x is Tamper <==> x.family_of() == EngineFamily::Tamper,
        x is Process <==> x.family_of() == EngineFamily::Process,
        x is Artifacts <==> x.family_of() == EngineFamily::Artifacts,
        x is Tests <==> x.family_of() == EngineFamily::Tests,
        x is Static ==> x.version_of() == x->Static_engine_version@,
        x is Clones ==> x.version_of() == x->Clones_engine_version@,
        x is Tamper ==> x.version_of() == x->Tamper_engine_version@,
        x is Process ==> x.version_of() == x->Process_engine_version@,
        x is Artifacts ==> x.version_of() == x->Artifacts_engine_version@,
        x is Tests ==> x.version_of() == x->Tests_engine_version@,
{
}

} // verus!
