//! The configured rule set: selection by tags, included and excluded codes, the
//! workspace-level check flag, and the rule-set fingerprint that keys the
//! incremental cache.
//!
//! The rules themselves live in the analysis engine and are opaque here;
//! what the library states about them is over their codes.

use vstd::prelude::*;
use vstd::string::StringSliceAdditionalSpecFns;
use vstd::string::StrSliceExecFns;

use crate::cache::bytes_eq;
use crate::diagnostics::surface_code;
use crate::diagnostics::surface_code_bytes;
use crate::sorting::SortKey;
use crate::sorting::ordered;
use crate::sorting::stable_sorted;
use crate::sorting::sort_by_order;
use crate::sorting::lemma_stable_sorted_ensures;
use crate::textorder::byte_views;
use crate::textorder::lemma_bytes_sort_view_commute;

verus! {

/// The rules the analyzer will run, held as the engine represents them.
#[verifier::external_body]
pub struct RuleSet {
    pub(crate) inner: Vec<Box<dyn deno_lint::rules::LintRule>>,
}

/// The codes of the rules a rule set holds, in the set's order.
pub uninterp spec fn rule_codes_of(rs: RuleSet) -> Seq<Seq<u8>>;

/// The codes selected by the engine's registry for one combination of tags,
/// excluded codes and included codes.
pub uninterp spec fn filtered_codes(tags: Option<Seq<Seq<u8>>>, exclude: Option<Seq<Seq<u8>>>, included: Option<Seq<Seq<u8>>>) -> Seq<Seq<u8>>;

/// Relies on deno_lint's rules::get_all_rules and rules::filtered_rules:
/// the registry is fixed, filtering is a function of the tags, excludes and
/// includes alone, the result comes sorted alphabetically by code, and the
/// registry defines no rule under the workspace surface check's synthetic
/// code, so no selection can contain it.
#[verifier::external_body]
fn filtered_rule_set(tags: Option<&Vec<Vec<u8>>>, exclude: Option<&Vec<Vec<u8>>>, included: Option<
    &Vec<Vec<u8>>>) -> (r: RuleSet)
    ensures
        rule_codes_of(r) == filtered_codes(
            opt_byte_views(tags),
            opt_byte_views(exclude),
            opt_byte_views(included),
        ),
        ordered(rule_codes_of(r)),
        !rule_codes_of(r).contains(surface_code()),
        (exclude matches Option::Some(ex) ==> forall|i: int|
            0 <= i < ex@.len() ==> !rule_codes_of(r).contains(ex@[i]@)),
{
    let to_strings = |v: &Vec<Vec<u8>>| -> Vec<String> {
        v.iter().map(|b| String::from_utf8_lossy(b).into_owned()).collect()
    };
    RuleSet {
        inner: deno_lint::rules::filtered_rules(
            deno_lint::rules::get_all_rules(),
            tags.map(to_strings),
            exclude.map(to_strings),
            included.map(to_strings),
        ),
    }
}

/// Relies on deno_lint's LintRule::code: each rule reports one fixed code.
#[verifier::external_body]
pub fn rule_codes(rs: &RuleSet) -> (r: Vec<Vec<u8>>)
    ensures
        byte_views(r@) == rule_codes_of(*rs),
{
    rs.inner.iter().map(|rule| rule.code().as_bytes().to_vec()).collect()
}

pub open spec fn opt_byte_views(o: Option<&Vec<Vec<u8>>>) -> Option<Seq<Seq<u8>>> {
    match o {
        Option::Some(v) => Option::Some(byte_views(v@)),
        Option::None => Option::None,
    }
}

pub open spec fn opt_byte_views_owned(o: Option<Vec<Vec<u8>>>) -> Option<Seq<Seq<u8>>> {
    match o {
        Option::Some(v) => Option::Some(byte_views(v@)),
        Option::None => Option::None,
    }
}

/// What the command layer resolved from flags and configuration: tag,
/// exclude and included code lists.
pub struct LintRulesConfig {
    pub tags: Option<Vec<Vec<u8>>>,
    pub exclude: Option<Vec<Vec<u8>>>,
    pub included: Option<Vec<Vec<u8>>>,
}

/// What the library reads from a configuration file: whether it declares a
/// package, and whether it declares workspace members.
#[derive(PartialEq, Eq, Structural, Clone, Copy, Debug)]
pub struct ConfigFileInfo {
    pub is_package: bool,
    pub has_workspaces: bool,
}

/// The selected rules plus the flag for the workspace-level export surface
/// check, which is no engine rule.
pub struct ConfiguredRules {
    pub rules: RuleSet,
    pub no_slow_types: bool,
}

/// The default tag list: "recommended", plus "jsr" for a package config.
pub open spec fn default_tags_spec(is_package: bool) -> Seq<Seq<u8>> {
    if is_package {
        seq!["recommended".spec_bytes(), "jsr".spec_bytes()]
    } else {
        seq!["recommended".spec_bytes()]
    }
}

pub fn get_default_tags(maybe_config_file: Option<&ConfigFileInfo>) -> (r: Vec<Vec<u8>>)
    ensures
        byte_views(r@) == default_tags_spec(spec_is_package(maybe_config_file)),
{
    let mut tags: Vec<Vec<u8>> = Vec::new();
    let rec = "recommended";
    tags.push(rec.as_bytes_vec());
    let is_package = match maybe_config_file {
        Option::Some(c) => c.is_package,
        Option::None => false,
    };
    if is_package {
        let jsr = "jsr";
        tags.push(jsr.as_bytes_vec());
        proof {
            assert(byte_views(tags@) =~= default_tags_spec(true));
        }
    } else {
        proof {
            assert(byte_views(tags@) =~= default_tags_spec(false));
        }
    }
    tags
}

pub open spec fn spec_is_package(cfg: Option<&ConfigFileInfo>) -> bool {
    match cfg {
        Option::Some(c) => c.is_package,
        Option::None => false,
    }
}

pub open spec fn spec_implicit_no_slow_types(cfg: Option<&ConfigFileInfo>) -> bool {
    match cfg {
        Option::Some(c) => c.is_package || c.has_workspaces,
        Option::None => false,
    }
}

pub open spec fn surface_pred() -> spec_fn(Seq<u8>) -> bool {
    |c: Seq<u8>| c != surface_code()
}

/// The surface-check code dropped from a code list: it is no engine rule.
pub open spec fn drop_surface(s: Seq<Seq<u8>>) -> Seq<Seq<u8>> {
    s.filter(surface_pred())
}

fn filter_out_surface(v: Vec<Vec<u8>>) -> (out: Vec<Vec<u8>>)
    ensures
        byte_views(out@) == drop_surface(byte_views(v@)),
{
    let ghost orig = byte_views(v@);
    let ghost pred = surface_pred();
    let nst = surface_code_bytes();
    let mut out: Vec<Vec<u8>> = Vec::new();
    let mut src = v;
    let ghost mut i: int = 0;
    proof {
        reveal(Seq::filter);
        assert(byte_views(out@) =~= orig.take(0).filter(pred));
    }
    while src.len() > 0
        invariant
            0 <= i,
            i + src@.len() == orig.len(),
            nst@ == surface_code(),
            pred == surface_pred(),
            byte_views(src@) =~= orig.skip(i),
            byte_views(out@) == orig.take(i).filter(pred),
        decreases src@.len(),
    {
        proof {
            assert(byte_views(src@)[0] == orig[i]);
            assert(byte_views(src@.drop_first()) =~= byte_views(src@).drop_first());
        }
        let e = src.remove(0);
        proof {
            assert(e@ == orig[i]);
        }
        let keep = !bytes_eq(&e, &nst);
        let ghost prev = byte_views(out@);
        proof {
            assert(nst@ == surface_code());
            assert(keep == pred(orig[i]));
        }
        if keep {
            out.push(e);
            proof {
                assert(byte_views(out@) =~= prev.push(orig[i]));
            }
        }
        proof {
            reveal(Seq::filter);
            assert(orig.take(i + 1).drop_last() =~= orig.take(i));
            assert(orig.take(i + 1).last() == orig[i]);
            assert(orig.take(i + 1).filter(pred) == if pred(orig[i]) {
                prev.push(orig[i])
            } else {
                prev
            });
            i = i + 1;
        }
    }
    proof {
        assert(orig.take(i) =~= orig);
    }
    out
}

fn contains_surface(v: &Vec<Vec<u8>>) -> (r: bool)
    ensures
        r == byte_views(v@).contains(surface_code()),
{
    let nst = surface_code_bytes();
    let mut i: usize = 0;
    while i < v.len()
        invariant
            i <= v@.len(),
            nst@ == surface_code(),
            forall|k: int| 0 <= k < i ==> (#[trigger] byte_views(v@)[k]) != surface_code(),
        decreases v@.len() - i,
    {
        let same = bytes_eq(&v[i], &nst);
        proof {
            assert(byte_views(v@)[i as int] == v@[i as int]@);
        }
        if same {
            proof {
                assert(byte_views(v@)[i as int] == surface_code());
            }
            return true;
        }
        i = i + 1;
    }
    proof {
        assert forall|k: int| 0 <= k < byte_views(v@).len() implies byte_views(v@)[k]
            != surface_code() by {}
    }
    false
}

/// Whether the workspace-level check is on: a package or workspace config
/// implies it, unless the exclude list names it.
pub open spec fn spec_no_slow_types(exclude: Option<Seq<Seq<u8>>>, cfg: Option<&ConfigFileInfo>) -> bool {
    spec_implicit_no_slow_types(cfg) && !(match exclude {
        Option::Some(ex) => ex.contains(surface_code()),
        Option::None => false,
    })
}

/// The effective tag selection: the configured tags, or the defaults.
pub open spec fn spec_effective_tags(tags: Option<Seq<Seq<u8>>>, cfg: Option<&ConfigFileInfo>) -> Option<Seq<Seq<u8>>> {
    match tags {
        Option::Some(t) => Option::Some(t),
        Option::None => Option::Some(default_tags_spec(spec_is_package(cfg))),
    }
}

pub open spec fn spec_opt_drop_surface(o: Option<Seq<Seq<u8>>>) -> Option<Seq<Seq<u8>>> {
    match o {
        Option::Some(s) => Option::Some(drop_surface(s)),
        Option::None => Option::None,
    }
}

/// The codes the run will lint with, for one resolved configuration.
pub open spec fn configured_codes(tags: Option<Seq<Seq<u8>>>, exclude: Option<Seq<Seq<u8>>>, included: Option<Seq<Seq<u8>>>, cfg: Option<&ConfigFileInfo>) -> Seq<Seq<u8>> {
    filtered_codes(
        spec_effective_tags(tags, cfg),
        spec_opt_drop_surface(exclude),
        spec_opt_drop_surface(included),
    )
}

/// Resolves the configured rule selection: tags default to "recommended"
/// (plus "jsr" for packages), the surface-check code is stripped from the
/// engine's exclude and included lists, and the workspace-level check is
/// implied by a package or workspace config unless excluded.
pub fn get_configured_rules(rules: LintRulesConfig, maybe_config_file: Option<&ConfigFileInfo>)
    -> (r: ConfiguredRules)
    ensures
        rule_codes_of(r.rules) == configured_codes(
            opt_byte_views_owned(rules.tags),
            opt_byte_views_owned(rules.exclude),
            opt_byte_views_owned(rules.included),
            maybe_config_file,
        ),
        r.no_slow_types == spec_no_slow_types(
            opt_byte_views_owned(rules.exclude),
            maybe_config_file,
        ),
        !rule_codes_of(r.rules).contains(surface_code()),
{
    let LintRulesConfig { tags, exclude, included } = rules;
    let implicit_no_slow_types = match maybe_config_file {
        Option::Some(c) => c.is_package || c.has_workspaces,
        Option::None => false,
    };
    let excludes_surface = match &exclude {
        Option::Some(ex) => contains_surface(ex),
        Option::None => false,
    };
    let no_slow_types = implicit_no_slow_types && !excludes_surface;
    let effective_tags = match tags {
        Option::Some(t) => t,
        Option::None => get_default_tags(maybe_config_file),
    };
    let exclude2 = match exclude {
        Option::Some(ex) => Option::Some(filter_out_surface(ex)),
        Option::None => Option::None,
    };
    let include2 = match included {
        Option::Some(inc) => Option::Some(filter_out_surface(inc)),
        Option::None => Option::None,
    };
    let rule_set = filtered_rule_set(
        Option::Some(&effective_tags),
        exclude2.as_ref(),
        include2.as_ref(),
    );
    ConfiguredRules { rules: rule_set, no_slow_types }
}

/// A run-fatal configuration fault, raised before any analysis starts.
pub enum SetupError {
    NoTargetFiles,
    NoRulesConfigured,
}

impl SetupError {
    pub open spec fn spec_message(self) -> Seq<u8> {
        match self {
            SetupError::NoTargetFiles => "No target files found.".spec_bytes(),
            SetupError::NoRulesConfigured => "No rules have been configured".spec_bytes(),
        }
    }

    pub fn message(&self) -> (r: Vec<u8>)
        ensures
            r@ == self.spec_message(),
    {
        match self {
            SetupError::NoTargetFiles => {
                let s = "No target files found.";
                s.as_bytes_vec()
            },
            SetupError::NoRulesConfigured => {
                let s = "No rules have been configured";
                s.as_bytes_vec()
            },
        }
    }
}

/// Resolves the rule selection and rejects an empty one: linting with no
/// rules is a configuration error, not an empty run.
pub fn get_config_rules_err_empty(rules: LintRulesConfig, maybe_config_file: Option<
    &ConfigFileInfo>) -> (r: Result<ConfiguredRules, SetupError>)
    ensures
        (r is Err) <==> configured_codes(
            opt_byte_views_owned(rules.tags),
            opt_byte_views_owned(rules.exclude),
            opt_byte_views_owned(rules.included),
            maybe_config_file,
        ).len() == 0,
        r matches Ok(c) ==> rule_codes_of(c.rules) == configured_codes(
            opt_byte_views_owned(rules.tags),
            opt_byte_views_owned(rules.exclude),
            opt_byte_views_owned(rules.included),
            maybe_config_file,
        ) && c.no_slow_types == spec_no_slow_types(
            opt_byte_views_owned(rules.exclude),
            maybe_config_file,
        ),
        r matches Err(e) ==> e is NoRulesConfigured,
{
    let configured = get_configured_rules(rules, maybe_config_file);
    let codes = rule_codes(&configured.rules);
    if codes.len() == 0 {
        proof {
            assert(rule_codes_of(configured.rules).len() == byte_views(codes@).len());
        }
        Result::Err(SetupError::NoRulesConfigured)
    } else {
        proof {
            assert(rule_codes_of(configured.rules).len() == byte_views(codes@).len());
        }
        Result::Ok(configured)
    }
}

/// The rule-set fingerprint that keys the incremental cache: the codes
/// sorted, with a marker appended when the workspace-level check is active.
pub open spec fn fingerprint_of(codes: Seq<Seq<u8>>, no_slow_types: bool) -> Seq<Seq<u8>> {
    stable_sorted(codes) + if no_slow_types {
        seq![surface_code()]
    } else {
        Seq::<Seq<u8>>::empty()
    }
}

impl ConfiguredRules {
    /// Derives the cache fingerprint for this configuration.
    pub fn incremental_cache_state(&self) -> (r: Vec<Vec<u8>>)
        ensures
            byte_views(r@) == fingerprint_of(rule_codes_of(self.rules), self.no_slow_types),
    {
        let codes = rule_codes(&self.rules);
        proof {
            lemma_bytes_sort_view_commute(codes@);
        }
        let mut sorted = sort_by_order(codes);
        let ghost base = byte_views(sorted@);
        if self.no_slow_types {
            sorted.push(surface_code_bytes());
            proof {
                assert(byte_views(sorted@) =~= base + seq![surface_code()]);
            }
        } else {
            proof {
                assert(byte_views(sorted@) =~= base + Seq::<Seq<u8>>::empty());
            }
        }
        sorted
    }
}

/// Two rule sets whose code multisets differ have different fingerprints:
/// changing one enabled rule code invalidates every prior cache entry.
pub proof fn lemma_fingerprint_injective(c1: Seq<Seq<u8>>, c2: Seq<Seq<u8>>, no_slow_types: bool)
    requires
        fingerprint_of(c1, no_slow_types) == fingerprint_of(c2, no_slow_types),
    ensures
        c1.to_multiset() == c2.to_multiset(),
{
    lemma_stable_sorted_ensures::<Seq<u8>>(c1);
    lemma_stable_sorted_ensures::<Seq<u8>>(c2);
    let f1 = fingerprint_of(c1, no_slow_types);
    let f2 = fingerprint_of(c2, no_slow_types);
    assert(stable_sorted(c1) =~= f1.take(c1.len() as int));
    assert(stable_sorted(c2) =~= f2.take(c2.len() as int));
    assert(c1.len() == c2.len()) by {
        assert(f1.len() == c1.len() + (if no_slow_types { 1 as int } else { 0 as int }));
        assert(f2.len() == c2.len() + (if no_slow_types { 1 as int } else { 0 as int }));
    }
}

} // verus!
