//! The command-line surface: which binary serves which reports, and the
//! help texts.
//!
//! The executable surface splits along trust tiers: the book binary serves
//! the official world (listings, positions, settle-primary P&L), the risk
//! binary the model world. A report from the sibling tier is an error
//! pointing at the other binary, never silently filtered.

use vstd::prelude::*;
use vstd::string::{StrSliceExecFns, StringExecFns};

use crate::reports::{describe, join, report_descriptions, report_names, report_position};
use crate::text::{pad_right, push_padded_right};

verus! {

/// One binary's slice of the report registry.
pub struct Tier {
    /// Binary name.
    pub bin: &'static str,
    /// The sibling binary a wrong-tier report request is pointed to.
    pub other_bin: &'static str,
    /// `(name, description)` pairs this binary serves.
    pub reports: Vec<(&'static str, &'static str)>,
    /// Reports run when neither the command line nor the config names any.
    pub fallback: Vec<&'static str>,
    /// The tier's config schema, appended to `--help`.
    pub config_help: &'static str,
}

/// The names of the reports `tier` serves, in order.
pub open spec fn tier_names(reports: Seq<(&'static str, &'static str)>) -> Seq<Seq<char>> {
    reports.map_values(|p: (&'static str, &'static str)| p.0@)
}

/// The book tier's config schema help.
pub open spec fn book_config_help() -> Seq<char> {
    "CONFIG (book.toml \u{2014} strict schema: unknown or risk-tier keys are errors):\n  instruments = [\"path.json\", ...]  # instrument definitions\n  deals       = [\"path.json\", ...]  # trades\n  market      = \"market.json\"       # one-file market history {source, generator, skipped_days, days: [...]}\n                                       # optional: static reports run without it\n  reports     = [\"pnl\", ...]        # default reports when --report is omitted\n\n  [[waivers]]                       # optional: downgrade known history holes to warnings\n  from = \"2020-01-01\"\n  through = \"2020-09-30\"\n  reason = \"upstream data gap\"\n\n  [proxy_marks]                     # optional: uncleared lookalike -> cleared twin's settle\n  \"BIL-BRN-U26\" = \"ICE-B-U26\"\n\n  Paths are resolved relative to the config file's directory."@
}

/// The risk tier's config schema help.
pub open spec fn risk_config_help() -> Seq<char> {
    "CONFIG (risk.toml \u{2014} lists the same data files as the book, plus risk enrichment):\n  instruments = [\"path.json\", ...]  # same instrument definitions as the book\n  deals       = [\"path.json\", ...]  # same trades as the book\n  market      = \"market.json\"       # the book's market history\n  vol_data    = [\"vols.json\", ...]  # risk-tier vol histories, merged day-wise\n  reports     = [\"risk\", ...]       # default reports when --report is omitted\n\n  [[waivers]] / [proxy_marks]       # duplicated from book.toml where the risk\n                                       # report needs the policy\n\n  Paths are resolved relative to the config file's directory."@
}

/// The config schema help of the single-binary driver.
pub open spec fn spec_config_help() -> Seq<char> {
    "CONFIG (TOML):\n  instruments   = [\"path.json\", ...]   # instrument definitions\n  deals         = [\"path.json\", ...]   # trades\n  market_data   = [\"path.json\", ...]   # quotes, curves, valuation date (optional: static reports run without it)\n  market_series = \"series/index.json\" # optional historical series; enables settle-completeness checks\n  reports       = [\"pnl\", ...]         # default reports when --report is omitted\n\n  [[waivers]]                          # optional: downgrade known series holes to warnings\n  from = \"2020-01-01\"\n  through = \"2020-09-30\"\n  reason = \"upstream data gap\"\n\n  Paths are resolved relative to the config file's directory."@
}

/// Trailing `--help` section documenting the TOML config schema.
pub fn config_help() -> (r: String)
    ensures
        r@ == spec_config_help(),
{
    String::from_str("CONFIG (TOML):\n  instruments   = [\"path.json\", ...]   # instrument definitions\n  deals         = [\"path.json\", ...]   # trades\n  market_data   = [\"path.json\", ...]   # quotes, curves, valuation date (optional: static reports run without it)\n  market_series = \"series/index.json\" # optional historical series; enables settle-completeness checks\n  reports       = [\"pnl\", ...]         # default reports when --report is omitted\n\n  [[waivers]]                          # optional: downgrade known series holes to warnings\n  from = \"2020-01-01\"\n  through = \"2020-09-30\"\n  reason = \"upstream data gap\"\n\n  Paths are resolved relative to the config file's directory.")
}

/// The two binaries split the reports between them: every known report
/// is served by exactly one of the book tier (all but `risk`) and the
/// risk tier (`risk` alone).
pub proof fn lemma_tiers_partition_reports(i: int)
    requires
        0 <= i < report_names().len(),
    ensures
        report_names().take(5).contains(report_names()[i]) != seq![report_names()[5]].contains(
            report_names()[i],
        ),
{
    crate::reports::lemma_names_distinct();
    let n = report_names();
    if i < 5 {
        assert(n.take(5)[i] == n[i]);
        assert(n[i] != n[5]);
        assert(!seq![n[5]].contains(n[i])) by {
            if seq![n[5]].contains(n[i]) {
                assert(seq![n[5]][0] == n[i]);
            }
        }
    } else {
        assert(seq![n[5]][0] == n[i]);
        assert(!n.take(5).contains(n[5])) by {
            if n.take(5).contains(n[5]) {
                let j = choose|j: int| 0 <= j < 5 && n.take(5)[j] == n[5];
                assert(n[j] != n[5]);
            }
        }
    }
}

/// The official world: the book binary serves every report but `risk`.
pub fn book_tier() -> (r: Tier)
    ensures
        r.bin@ == "qloxide-book"@,
        r.other_bin@ == "qloxide-risk"@,
        tier_names(r.reports@) == report_names().take(5),
        forall|i: int| 0 <= i < 5 ==> (#[trigger] r.reports@[i]).1@ == report_descriptions()[i],
        r.fallback@.len() == 0,
        r.config_help@ == book_config_help(),
{
    let table = crate::reports::descriptions();
    let mut reports: Vec<(&'static str, &'static str)> = Vec::new();
    let mut i: usize = 0;
    while i < 5
        invariant
            i <= 5,
            table@.len() == 6,
            forall|k: int|
                0 <= k < 6 ==> (#[trigger] table@[k]).0@ == report_names()[k] && table@[k].1@
                    == report_descriptions()[k],
            reports@.len() == i,
            forall|k: int|
                0 <= k < i ==> (#[trigger] reports@[k]).0@ == report_names()[k] && reports@[k].1@
                    == report_descriptions()[k],
        decreases 5 - i,
    {
        reports.push(table[i]);
        i = i + 1;
    }
    proof {
        assert(tier_names(reports@) =~= report_names().take(5));
    }
    Tier {
        bin: "qloxide-book",
        other_bin: "qloxide-risk",
        reports,
        fallback: Vec::new(),
        config_help: "CONFIG (book.toml \u{2014} strict schema: unknown or risk-tier keys are errors):\n  instruments = [\"path.json\", ...]  # instrument definitions\n  deals       = [\"path.json\", ...]  # trades\n  market      = \"market.json\"       # one-file market history {source, generator, skipped_days, days: [...]}\n                                       # optional: static reports run without it\n  reports     = [\"pnl\", ...]        # default reports when --report is omitted\n\n  [[waivers]]                       # optional: downgrade known history holes to warnings\n  from = \"2020-01-01\"\n  through = \"2020-09-30\"\n  reason = \"upstream data gap\"\n\n  [proxy_marks]                     # optional: uncleared lookalike -> cleared twin's settle\n  \"BIL-BRN-U26\" = \"ICE-B-U26\"\n\n  Paths are resolved relative to the config file's directory.",
    }
}

/// The model world: the risk binary serves `risk`, and runs it by default.
pub fn risk_tier() -> (r: Tier)
    ensures
        r.bin@ == "qloxide-risk"@,
        r.other_bin@ == "qloxide-book"@,
        tier_names(r.reports@) == seq![report_names()[5]],
        r.reports@.len() == 1 && r.reports@[0].1@ == report_descriptions()[5],
        r.fallback@.len() == 1 && r.fallback@[0]@ == "risk"@,
        r.config_help@ == risk_config_help(),
{
    let table = crate::reports::descriptions();
    let mut reports: Vec<(&'static str, &'static str)> = Vec::new();
    reports.push(table[5]);
    proof {
        reveal_strlit("risk");
        assert(tier_names(reports@) =~= seq![report_names()[5]]);
    }
    let mut fallback: Vec<&'static str> = Vec::new();
    fallback.push("risk");
    Tier {
        bin: "qloxide-risk",
        other_bin: "qloxide-book",
        reports,
        fallback,
        config_help: "CONFIG (risk.toml \u{2014} lists the same data files as the book, plus risk enrichment):\n  instruments = [\"path.json\", ...]  # same instrument definitions as the book\n  deals       = [\"path.json\", ...]  # same trades as the book\n  market      = \"market.json\"       # the book's market history\n  vol_data    = [\"vols.json\", ...]  # risk-tier vol histories, merged day-wise\n  reports     = [\"risk\", ...]       # default reports when --report is omitted\n\n  [[waivers]] / [proxy_marks]       # duplicated from book.toml where the risk\n                                       # report needs the policy\n\n  Paths are resolved relative to the config file's directory.",
    }
}

impl Tier {
    /// True if this binary serves the report called `name`.
    pub fn serves(&self, name: &str) -> (r: bool)
        ensures
            r == tier_names(self.reports@).contains(name@),
    {
        let key = String::from_str(name);
        let mut i: usize = 0;
        while i < self.reports.len()
            invariant
                i <= self.reports@.len(),
                key@ == name@,
                forall|k: int| 0 <= k < i ==> (#[trigger] self.reports@[k]).0@ != name@,
            decreases self.reports.len() - i,
        {
            if String::from_str(self.reports[i].0) == key {
                proof {
                    assert(tier_names(self.reports@)[i as int] == name@);
                }
                return true;
            }
            i = i + 1;
        }
        proof {
            if tier_names(self.reports@).contains(name@) {
                let k = choose|k: int|
                    0 <= k < tier_names(self.reports@).len() && tier_names(self.reports@)[k]
                        == name@;
                assert(self.reports@[k].0@ == name@);
            }
        }
        false
    }

    /// What to tell a user who asked this binary for `name`, a report it
    /// does not serve: a known report is redirected to the sibling binary;
    /// an unknown one is listed against what this binary serves. `origin`
    /// says where the name came from (empty for the command line).
    pub fn rejection(&self, name: &str, origin: &str) -> (r: String)
        ensures
            r@ == (match report_position(name@) {
                Some(i) => "report '"@ + name@ + "' ("@ + report_descriptions()[i] + ") "@ + origin@
                    + " is not served by "@ + self.bin@ + " \u{2014} run "@ + self.other_bin@
                    + " instead"@,
                None => "unknown report '"@ + name@ + "' "@ + origin@ + ". available in "@ + self.bin@
                    + ": "@ + join(tier_names(self.reports@), ", "@),
            }),
    {
        proof {
            reveal_strlit("report '");
            reveal_strlit("' (");
            reveal_strlit(") ");
            reveal_strlit(" is not served by ");
            reveal_strlit(" \u{2014} run ");
            reveal_strlit(" instead");
            reveal_strlit("unknown report '");
            reveal_strlit("' ");
            reveal_strlit(". available in ");
            reveal_strlit(": ");
            reveal_strlit(", ");
        }
        match describe(name) {
            Some(desc) => String::from_str("report '").concat(name).concat("' (").concat(desc).concat(
                ") ",
            ).concat(origin).concat(" is not served by ").concat(self.bin).concat(" \u{2014} run ").concat(
                self.other_bin,
            ).concat(" instead"),
            None => {
                let mut msg = String::from_str("unknown report '").concat(name).concat("' ").concat(
                    origin,
                ).concat(". available in ").concat(self.bin).concat(": ");
                let ghost prefix = msg@;
                let ghost names = tier_names(self.reports@);
                let mut i: usize = 0;
                while i < self.reports.len()
                    invariant
                        i <= self.reports@.len(),
                        names == tier_names(self.reports@),
                        msg@ == prefix + join(names.take(i as int), ", "@),
                        ", "@ == seq![',', ' '],
                    decreases self.reports.len() - i,
                {
                    proof {
                        let t = names.take(i + 1);
                        assert(t.drop_last() =~= names.take(i as int));
                        assert(t.last() == names[i as int]);
                    }
                    if i > 0 {
                        msg.append(", ");
                    }
                    msg.append(self.reports[i].0);
                    i = i + 1;
                }
                proof {
                    assert(names.take(names.len() as int) =~= names);
                }
                msg
            },
        }
    }
}

/// The longest name among `names`.
pub open spec fn max_len(names: Seq<Seq<char>>) -> nat
    decreases names.len(),
{
    if names.len() == 0 {
        0
    } else {
        let m = max_len(names.drop_last());
        if names.last().len() > m {
            names.last().len()
        } else {
            m
        }
    }
}

/// The help lines of `reports`, names padded to `width`.
pub open spec fn help_lines(reports: Seq<(&'static str, &'static str)>, width: nat) -> Seq<char>
    decreases reports.len(),
{
    if reports.len() == 0 {
        Seq::empty()
    } else {
        help_lines(reports.drop_last(), width) + "\n  "@ + pad_right(reports.last().0@, width) + "  "@
            + reports.last().1@
    }
}

/// Long help for `--report`: each report this tier serves, names aligned.
pub fn report_long_help(tier: &Tier) -> (r: String)
    ensures
        r@ == "Reports to run (overrides config).\n"@ + help_lines(
            tier.reports@,
            max_len(tier_names(tier.reports@)),
        ),
{
    proof {
        reveal_strlit("Reports to run (overrides config).\n");
        reveal_strlit("\n  ");
        reveal_strlit("  ");
    }
    let ghost names = tier_names(tier.reports@);
    let mut width: usize = 0;
    let mut i: usize = 0;
    while i < tier.reports.len()
        invariant
            i <= tier.reports@.len(),
            names == tier_names(tier.reports@),
            width == max_len(names.take(i as int)),
        decreases tier.reports.len() - i,
    {
        proof {
            let t = names.take(i + 1);
            assert(t.drop_last() =~= names.take(i as int));
            assert(t.last() == names[i as int]);
        }
        let n = tier.reports[i].0.unicode_len();
        if n > width {
            width = n;
        }
        i = i + 1;
    }
    proof {
        assert(names.take(names.len() as int) =~= names);
    }
    let mut help = String::from_str("Reports to run (overrides config).\n");
    let ghost head = help@;
    let mut i: usize = 0;
    while i < tier.reports.len()
        invariant
            i <= tier.reports@.len(),
            help@ == head + help_lines(tier.reports@.take(i as int), width as nat),
            "\n  "@ == seq!['\n', ' ', ' '],
            "  "@ == seq![' ', ' '],
        decreases tier.reports.len() - i,
    {
        proof {
            let t = tier.reports@.take(i + 1);
            assert(t.drop_last() =~= tier.reports@.take(i as int));
            assert(t.last() == tier.reports@[i as int]);
        }
        let ghost before = help@;
        help.append("\n  ");
        push_padded_right(&mut help, tier.reports[i].0, width);
        help.append("  ");
        help.append(tier.reports[i].1);
        proof {
            assert(help@ =~= before + "\n  "@ + pad_right(tier.reports@[i as int].0@, width as nat) + "  "@
                + tier.reports@[i as int].1@);
        }
        i = i + 1;
    }
    proof {
        assert(tier.reports@.take(tier.reports@.len() as int) =~= tier.reports@);
    }
    help
}

/// Every name of `names` is served by the tier.
pub open spec fn all_served(reports: Seq<(&'static str, &'static str)>, names: Seq<String>) -> bool {
    forall|i: int| 0 <= i < names.len() ==> tier_names(reports).contains(#[trigger] names[i]@)
}

/// Check the names asked for on the command line against the tier: the
/// rejection of the first name it does not serve is the error.
pub fn check_requested(tier: &Tier, requested: &[String]) -> (r: core::result::Result<(), String>)
    ensures
        r is Ok <==> all_served(tier.reports@, requested@),
{
    let mut i: usize = 0;
    while i < requested.len()
        invariant
            i <= requested@.len(),
            forall|k: int| 0 <= k < i ==> tier_names(tier.reports@).contains(#[trigger] requested@[k]@),
        decreases requested.len() - i,
    {
        if !tier.serves(requested[i].as_str()) {
            return Err(tier.rejection(requested[i].as_str(), ""));
        }
        i = i + 1;
    }
    Ok(())
}

/// The reports to run: those asked for on the command line; else those
/// the config names, each of which the tier must serve (the rejection of
/// the first that it does not, marked as coming from the config, is the
/// error); else the tier's fallback.
pub fn reports_to_run(tier: &Tier, requested: &[String], config_reports: &[String]) -> (r:
    core::result::Result<Vec<String>, String>)
    ensures
        requested@.len() > 0 ==> (r matches Ok(v) && texts_of(v@) == texts_of(requested@)),
        requested@.len() == 0 && config_reports@.len() == 0 ==> (r matches Ok(v) && texts_of(v@)
            == tier.fallback@.map_values(|s: &'static str| s@)),
        requested@.len() == 0 && config_reports@.len() > 0 ==> (r is Ok <==> all_served(
            tier.reports@,
            config_reports@,
        )) && (r matches Ok(v) ==> texts_of(v@) == texts_of(config_reports@)),
{
    proof {
        reveal_strlit("(from config)");
    }
    if requested.len() > 0 {
        return Ok(copy_texts(requested));
    }
    if config_reports.len() == 0 {
        let mut v: Vec<String> = Vec::new();
        let mut i: usize = 0;
        while i < tier.fallback.len()
            invariant
                i <= tier.fallback@.len(),
                texts_of(v@) == tier.fallback@.take(i as int).map_values(|s: &'static str| s@),
            decreases tier.fallback.len() - i,
        {
            let ghost before = v@;
            let c = String::from_str(tier.fallback[i]);
            v.push(c);
            proof {
                assert(v@ == before.push(c));
                let f = tier.fallback@;
                assert(f.take(i + 1) =~= f.take(i as int).push(f[i as int]));
                assert(texts_of(v@) =~= texts_of(before).push(c@));
                assert(f.take(i + 1).map_values(|s: &'static str| s@) =~= f.take(i as int).map_values(
                    |s: &'static str| s@,
                ).push(f[i as int]@));
            }
            i = i + 1;
        }
        proof {
            assert(tier.fallback@.take(tier.fallback@.len() as int) =~= tier.fallback@);
        }
        return Ok(v);
    }
    let mut i: usize = 0;
    while i < config_reports.len()
        invariant
            i <= config_reports@.len(),
            requested@.len() == 0,
            forall|k: int|
                0 <= k < i ==> tier_names(tier.reports@).contains(#[trigger] config_reports@[k]@),
        decreases config_reports.len() - i,
    {
        if !tier.serves(config_reports[i].as_str()) {
            return Err(tier.rejection(config_reports[i].as_str(), "(from config)"));
        }
        i = i + 1;
    }
    Ok(copy_texts(config_reports))
}

/// The views of a list of texts.
pub open spec fn texts_of(v: Seq<String>) -> Seq<Seq<char>> {
    v.map_values(|s: String| s@)
}

fn copy_texts(v: &[String]) -> (r: Vec<String>)
    ensures
        texts_of(r@) == texts_of(v@),
{
    let mut out: Vec<String> = Vec::new();
    let mut i: usize = 0;
    while i < v.len()
        invariant
            i <= v@.len(),
            texts_of(out@) == texts_of(v@.take(i as int)),
        decreases v.len() - i,
    {
        let ghost before = out@;
        let c = v[i].clone();
        out.push(c);
        proof {
            assert(out@ == before.push(c));
            assert(c@ == v@[i as int]@);
            assert(v@.take(i + 1) =~= v@.take(i as int).push(v@[i as int]));
            assert(texts_of(out@) =~= texts_of(before).push(c@));
            assert(texts_of(v@.take(i + 1)) =~= texts_of(v@.take(i as int)).push(v@[i as int]@));
        }
        i = i + 1;
    }
    proof {
        assert(v@.take(v@.len() as int) =~= v@);
    }
    out
}

} // verus!
