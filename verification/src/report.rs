//! The report that `gaze doctor` prints: one finding per check.

use crate::text;
use vstd::prelude::*;

verus! {

#[derive(Clone, Copy, Debug, PartialEq, Eq, Structural)]
pub enum Level {
    Pass,
    /// A working feature the user deliberately switched off: no checkmark, but it still carries the
    /// steps that switch it on.
    Off,
    Warning,
    Error,
}

#[derive(Debug)]
pub struct Check {
    pub level: Level,
    pub name: &'static str,
    pub message: String,
    pub fix: Option<String>,
}

/// What a check found.
pub struct Finding {
    pub level: Level,
    pub name: Seq<char>,
    pub message: Seq<char>,
    pub fix: Option<Seq<char>>,
}

impl View for Check {
    type V = Finding;

    open spec fn view(&self) -> Finding {
        Finding {
            level: self.level,
            name: self.name@,
            message: self.message@,
            fix: text::optional(self.fix),
        }
    }
}

pub open spec fn findings_of(checks: Seq<Check>) -> Seq<Finding> {
    Seq::new(checks.len(), |i: int| checks[i]@)
}

pub open spec fn passing(name: Seq<char>, message: Seq<char>) -> Finding {
    Finding { level: Level::Pass, name, message, fix: None }
}

pub open spec fn switched_off(name: Seq<char>, message: Seq<char>, how: Seq<char>) -> Finding {
    Finding { level: Level::Off, name, message, fix: Some(how) }
}

pub open spec fn warned(name: Seq<char>, message: Seq<char>, fix: Seq<char>) -> Finding {
    Finding { level: Level::Warning, name, message, fix: Some(fix) }
}

pub open spec fn failing(name: Seq<char>, message: Seq<char>, fix: Seq<char>) -> Finding {
    Finding { level: Level::Error, name, message, fix: Some(fix) }
}

/// A finding that is there only under a condition.
pub open spec fn only_if(condition: bool, finding: Finding) -> Seq<Finding> {
    if condition {
        seq![finding]
    } else {
        seq![]
    }
}

/// How many findings have a level.
pub open spec fn tally(findings: Seq<Finding>, level: Level) -> nat
    decreases findings.len(),
{
    if findings.len() == 0 {
        0
    } else {
        tally(findings.drop_last(), level) + (if findings.last().level == level {
            1nat
        } else {
            0nat
        })
    }
}

/// The mark that a finding is printed with.
pub open spec fn symbol_of(level: Level) -> char {
    match level {
        Level::Pass => '\u{2713}',
        Level::Off => '\u{25cb}',
        Level::Warning => '!',
        Level::Error => '\u{2717}',
    }
}

pub open spec fn plural(n: nat) -> Seq<char> {
    if n == 1 {
        ""@
    } else {
        "s"@
    }
}

pub open spec fn summary_of(findings: Seq<Finding>) -> Seq<char> {
    let warnings = tally(findings, Level::Warning);
    let errors = tally(findings, Level::Error);
    text::decimal(tally(findings, Level::Pass)) + " passed, "@ + text::decimal(
        tally(findings, Level::Off),
    ) + " off, "@ + text::decimal(warnings) + " warning"@ + plural(warnings) + ", "@
        + text::decimal(errors) + " error"@ + plural(errors)
}

impl Level {
    pub fn symbol(self) -> (r: char)
        ensures
            r == symbol_of(self),
    {
        match self {
            Level::Pass => '\u{2713}',
            Level::Off => '\u{25cb}',
            Level::Warning => '!',
            Level::Error => '\u{2717}',
        }
    }
}

impl Check {
    /// The lines under a finding that say what to do about it.
    pub fn fix_lines(&self) -> (r: Vec<String>)
        ensures
            text::texts(r@) == (match self@.fix {
                Some(fix) => text::lines_of(fix),
                None => seq![],
            }),
    {
        match &self.fix {
            Some(fix) => {
                let fix = text::chars(fix.as_str());
                text::strings(&text::lines(fix.as_slice()))
            },
            None => {
                let none: Vec<String> = Vec::new();
                proof {
                    assert(text::texts(none@) =~= seq![]);
                }
                none
            },
        }
    }
}

#[derive(Debug)]
pub struct Report {
    pub checks: Vec<Check>,
}

impl View for Report {
    type V = Seq<Finding>;

    open spec fn view(&self) -> Seq<Finding> {
        findings_of(self.checks@)
    }
}

impl Default for Report {
    fn default() -> (r: Report)
        ensures
            r@ == Seq::<Finding>::empty(),
    {
        let r = Report { checks: Vec::new() };
        proof {
            assert(r@ =~= Seq::<Finding>::empty());
        }
        r
    }
}

impl Report {
    pub fn push(&mut self, level: Level, name: &'static str, message: &str, fix: Option<&str>)
        ensures
            final(self)@ == old(self)@ + seq![
                Finding { level, name: name@, message: message@, fix: text::optional_str(fix) },
            ],
    {
        let fix = match fix {
            Some(fix) => Some(fix.to_owned()),
            None => None,
        };
        self.checks.push(Check { level, name, message: message.to_owned(), fix });
        proof {
            assert(self@ =~= old(self)@ + seq![self@.last()]);
        }
    }

    pub fn pass(&mut self, name: &'static str, message: &str)
        ensures
            final(self)@ == old(self)@ + seq![passing(name@, message@)],
    {
        self.push(Level::Pass, name, message, None);
    }

    pub fn off(&mut self, name: &'static str, message: &str, how: &str)
        ensures
            final(self)@ == old(self)@ + seq![switched_off(name@, message@, how@)],
    {
        self.push(Level::Off, name, message, Some(how));
    }

    pub fn warning(&mut self, name: &'static str, message: &str, fix: &str)
        ensures
            final(self)@ == old(self)@ + seq![warned(name@, message@, fix@)],
    {
        self.push(Level::Warning, name, message, Some(fix));
    }

    pub fn error(&mut self, name: &'static str, message: &str, fix: &str)
        ensures
            final(self)@ == old(self)@ + seq![failing(name@, message@, fix@)],
    {
        self.push(Level::Error, name, message, Some(fix));
    }

    /// Warns, if the condition holds.
    pub fn warning_if(&mut self, condition: bool, name: &'static str, message: &str, fix: &str)
        ensures
            final(self)@ == old(self)@ + only_if(condition, warned(name@, message@, fix@)),
    {
        if condition {
            self.warning(name, message, fix);
        }
        proof {
            assert(self@ =~= old(self)@ + only_if(condition, warned(name@, message@, fix@)));
        }
    }

    /// Reports an error, if the condition holds.
    pub fn error_if(&mut self, condition: bool, name: &'static str, message: &str, fix: &str)
        ensures
            final(self)@ == old(self)@ + only_if(condition, failing(name@, message@, fix@)),
    {
        if condition {
            self.error(name, message, fix);
        }
        proof {
            assert(self@ =~= old(self)@ + only_if(condition, failing(name@, message@, fix@)));
        }
    }

    pub fn count(&self, level: Level) -> (r: usize)
        ensures
            r == tally(self@, level),
    {
        let mut n: usize = 0;
        for i in 0..self.checks.len()
            invariant
                n == tally(self@.take(i as int), level),
                n <= i,
        {
            proof {
                assert(self@.take(i as int + 1).drop_last() =~= self@.take(i as int));
            }
            if self.checks[i].level == level {
                n = n + 1;
            }
        }
        proof {
            assert(self@.take(self.checks@.len() as int) =~= self@);
        }
        n
    }

    /// Errors make an unhealthy report; a feature that is switched off does not.
    pub fn is_healthy(&self) -> (r: bool)
        ensures
            r == (forall|i: int| 0 <= i < self@.len() ==> (#[trigger] self@[i]).level != Level::Error),
    {
        let n: usize = self.count(Level::Error);
        proof {
            lemma_tally_zero(self@, Level::Error);
        }
        n == 0
    }

    /// The last line of the report.
    pub fn summary(&self) -> (r: String)
        ensures
            r@ == summary_of(self@),
    {
        let warnings: usize = self.count(Level::Warning);
        let errors: usize = self.count(Level::Error);
        let mut r = text::decimal_text(self.count(Level::Pass) as u64);
        r.append(" passed, ");
        r.append(text::decimal_text(self.count(Level::Off) as u64).as_str());
        r.append(" off, ");
        r.append(text::decimal_text(warnings as u64).as_str());
        r.append(" warning");
        r.append(
            if warnings == 1 {
                ""
            } else {
                "s"
            },
        );
        r.append(", ");
        r.append(text::decimal_text(errors as u64).as_str());
        r.append(" error");
        r.append(
            if errors == 1 {
                ""
            } else {
                "s"
            },
        );
        r
    }
}

pub proof fn lemma_then(a: Seq<Finding>, b: Seq<Finding>, c: Seq<Finding>)
    ensures
        (a + b) + c == a + (b + c),
{
    assert((a + b) + c =~= a + (b + c));
}

pub proof fn lemma_nothing(a: Seq<Finding>)
    ensures
        a + Seq::<Finding>::empty() == a,
        Seq::<Finding>::empty() + a == a,
{
    assert(a + Seq::<Finding>::empty() =~= a);
    assert(Seq::<Finding>::empty() + a =~= a);
}

pub proof fn lemma_tally_zero(findings: Seq<Finding>, level: Level)
    ensures
        tally(findings, level) == 0 <==> forall|i: int|
            0 <= i < findings.len() ==> (#[trigger] findings[i]).level != level,
    decreases findings.len(),
{
    if findings.len() > 0 {
        let rest = findings.drop_last();
        lemma_tally_zero(rest, level);
        assert forall|i: int| 0 <= i < rest.len() implies rest[i] == findings[i] by {}
        if forall|i: int| 0 <= i < findings.len() ==> (#[trigger] findings[i]).level != level {
            assert forall|i: int| 0 <= i < rest.len() implies (#[trigger] rest[i]).level != level by {
                assert(findings[i].level != level);
            }
        }
        if tally(findings, level) == 0 {
            assert forall|i: int| 0 <= i < findings.len() implies (#[trigger] findings[i]).level
                != level by {
                if i < rest.len() {
                    assert(rest[i].level != level);
                }
            }
        }
    }
}

/// Every finding is counted once: the four counts of a report add up to its findings.
pub proof fn every_finding_is_counted_once(findings: Seq<Finding>)
    ensures
        tally(findings, Level::Pass) + tally(findings, Level::Off) + tally(
            findings,
            Level::Warning,
        ) + tally(findings, Level::Error) == findings.len(),
    decreases findings.len(),
{
    if findings.len() > 0 {
        every_finding_is_counted_once(findings.drop_last());
    }
}

/// Whatever does not pass comes with what to do about it.
pub open spec fn actionable(findings: Seq<Finding>) -> bool {
    forall|i: int|
        0 <= i < findings.len() ==> ((#[trigger] findings[i]).level == Level::Pass
            || findings[i].fix is Some)
}

/// A report says of everything that does not pass what to do about it, if each of its checks does.
/// Each way to add a single finding does.
pub proof fn reports_stay_actionable(
    findings: Seq<Finding>,
    more: Seq<Finding>,
    name: Seq<char>,
    message: Seq<char>,
    fix: Seq<char>,
)
    requires
        actionable(findings),
        actionable(more),
    ensures
        actionable(findings + more),
        actionable(findings + seq![passing(name, message)]),
        actionable(findings + seq![switched_off(name, message, fix)]),
        actionable(findings + seq![warned(name, message, fix)]),
        actionable(findings + seq![failing(name, message, fix)]),
{
}

/// Findings are counted in each part of a report alone, and one counts for its own level.
pub proof fn findings_are_counted_by_parts(
    first: Seq<Finding>,
    second: Seq<Finding>,
    finding: Finding,
    level: Level,
)
    ensures
        tally(first + second, level) == tally(first, level) + tally(second, level),
        tally(seq![finding], level) == (if finding.level == level {
            1nat
        } else {
            0nat
        }),
        tally(seq![], level) == 0,
    decreases second.len(),
{
    assert(seq![finding].drop_last() =~= seq![]);
    assert(tally(seq![finding].drop_last(), level) == 0);
    let all = first + second;
    if second.len() == 0 {
        assert(all =~= first);
    } else {
        findings_are_counted_by_parts(first, second.drop_last(), finding, level);
        assert(all.drop_last() =~= first + second.drop_last());
        assert(all.last() == second.last());
    }
}

/// A finding keeps what it is given and has the level that it is made for. Only what passes has nothing
/// to do about it. One that is there under a condition is there exactly when the condition holds.
pub proof fn findings_keep_what_they_are_given(
    name: Seq<char>,
    message: Seq<char>,
    fix: Seq<char>,
    condition: bool,
    finding: Finding,
)
    ensures
        passing(name, message).level == Level::Pass,
        switched_off(name, message, fix).level == Level::Off,
        warned(name, message, fix).level == Level::Warning,
        failing(name, message, fix).level == Level::Error,
        passing(name, message).fix is None,
        switched_off(name, message, fix).fix == Some(fix),
        warned(name, message, fix).fix == Some(fix),
        failing(name, message, fix).fix == Some(fix),
        passing(name, message).name == name && passing(name, message).message == message,
        switched_off(name, message, fix).name == name && switched_off(name, message, fix).message
            == message,
        warned(name, message, fix).name == name && warned(name, message, fix).message == message,
        failing(name, message, fix).name == name && failing(name, message, fix).message == message,
        condition ==> only_if(condition, finding) == seq![finding],
        !condition ==> only_if(condition, finding).len() == 0,
{
}

/// No two levels are printed alike, and only one of a thing is not a plural.
pub proof fn levels_are_told_apart(a: Level, b: Level, n: nat)
    ensures
        symbol_of(a) == symbol_of(b) ==> a == b,
        plural(n).len() == 0 <==> n == 1,
{
    reveal_strlit("");
    reveal_strlit("s");
}

/// The last line says how many findings there are of each level, in that order.
pub proof fn the_summary_gives_every_count(findings: Seq<Finding>)
    ensures
        ({
            let s = summary_of(findings);
            let passed = text::decimal(tally(findings, Level::Pass));
            let off = text::decimal(tally(findings, Level::Off));
            let warnings = text::decimal(tally(findings, Level::Warning));
            let errors = text::decimal(tally(findings, Level::Error));
            &&& text::starts(s, passed + " passed, "@ + off + " off, "@ + warnings + " warning"@)
            &&& text::ends(
                s,
                ", "@ + errors + " error"@ + (if tally(findings, Level::Error) == 1 {
                    ""@
                } else {
                    "s"@
                }),
            )
        }),
{
    let s = summary_of(findings);
    let passed = text::decimal(tally(findings, Level::Pass));
    let off = text::decimal(tally(findings, Level::Off));
    let warnings = text::decimal(tally(findings, Level::Warning));
    let errors = text::decimal(tally(findings, Level::Error));
    let front = passed + " passed, "@ + off + " off, "@ + warnings + " warning"@;
    let back = ", "@ + errors + " error"@ + plural(tally(findings, Level::Error));
    assert(s =~= front + plural(tally(findings, Level::Warning)) + back);
    assert(s.take(front.len() as int) =~= front);
    assert(s.skip(s.len() - back.len()) =~= back);
}

} // verus!
