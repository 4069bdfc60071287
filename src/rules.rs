//! The rule engine: an ordered list of (pattern, fix template) rules; the
//! first rule whose pattern matches an error gives the fix.
use vstd::prelude::*;
use crate::text::{chars_of, string_of, occurs_at};

verus! {

#[verifier::external_type_specification]
#[verifier::external_body]
pub struct ExRegex(regex::Regex);

/// Whether `regex::Regex::new` accepts a pattern.
pub uninterp spec fn pattern_compiles(pattern: Seq<char>) -> bool;

/// What `regex::Regex::captures` finds of a compiled pattern in a text: for
/// each named group its name and matched text, and the text of every
/// numbered group after the whole match, in order; `None` where the pattern
/// does not match.
pub uninterp spec fn captures_of(pattern: Seq<char>, text: Seq<char>) -> Option<(Seq<(Seq<char>, Option<Seq<char>>)>, Seq<Option<Seq<char>>>)>;

/// A compiled rule pattern with the text it was compiled from.
pub struct Pattern {
    source: String,
    re: regex::Regex,
}

impl Pattern {
    pub closed spec fn source(&self) -> Seq<char> {
        self.source@
    }
}

/// What a match of a rule pattern captured.
pub struct RuleCaptures {
    /// Each named group, with the text it matched if it took part.
    pub named: Vec<(String, Option<String>)>,
    /// The text of each numbered group after the whole match, where it took part.
    pub positional: Vec<Option<String>>,
}

pub open spec fn opt_str_view(o: Option<String>) -> Option<Seq<char>> {
    match o {
        Some(s) => Some(s@),
        None => None,
    }
}

impl RuleCaptures {
    pub open spec fn view_parts(&self) -> (Seq<(Seq<char>, Option<Seq<char>>)>, Seq<Option<Seq<char>>>) {
        (
            self.named@.map_values(|p: (String, Option<String>)| (p.0@, opt_str_view(p.1))),
            self.positional@.map_values(|o: Option<String>| opt_str_view(o)),
        )
    }
}

pub open spec fn captures_view(r: Option<RuleCaptures>) -> Option<(Seq<(Seq<char>, Option<Seq<char>>)>, Seq<Option<Seq<char>>>)> {
    match r {
        Some(c) => Some(c.view_parts()),
        None => None,
    }
}

/// Relies on `regex::Regex::new`: it accepts or refuses a pattern by its text alone.
#[verifier::external_body]
pub fn compile(pattern: &str) -> (r: Option<Pattern>)
    ensures
        r is Some == pattern_compiles(pattern@),
        r is Some ==> r->Some_0.source() == pattern@,
{
    regex::Regex::new(pattern).ok().map(|re| Pattern { source: pattern.to_string(), re })
}

/// Relies on `regex::Regex::captures`, with the pattern's group names and
/// its numbered groups read off the match.
#[verifier::external_body]
pub fn captures(p: &Pattern, text: &str) -> (r: Option<RuleCaptures>)
    ensures
        captures_view(r) == captures_of(p.source(), text@),
{
    p.re.captures(text).map(|caps| RuleCaptures {
        named: p.re.capture_names().flatten()
            .map(|n| (n.to_string(), caps.name(n).map(|m| m.as_str().to_string())))
            .collect(),
        positional: caps.iter().skip(1).map(|g| g.map(|m| m.as_str().to_string())).collect(),
    })
}

/// `s` with every occurrence of `from`, left to right and not overlapping,
/// replaced by `to`.
pub open spec fn replaced(s: Seq<char>, from: Seq<char>, to: Seq<char>) -> Seq<char>
    decreases s.len(),
{
    if from.len() == 0 || s.len() < from.len() {
        s
    } else if s.subrange(0, from.len() as int) == from {
        to + replaced(s.subrange(from.len() as int, s.len() as int), from, to)
    } else {
        seq![s[0]] + replaced(s.drop_first(), from, to)
    }
}

/// The placeholder of a named group: `{{name}}`.
pub open spec fn named_slot(name: Seq<char>) -> Seq<char> {
    seq!['{', '{'] + name + seq!['}', '}']
}

/// The placeholder of group `i`, for `i` from one to five: `$i`.
pub open spec fn positional_slot(i: int) -> Seq<char> {
    seq!['$', seq!['1', '2', '3', '4', '5'][i - 1]]
}

/// The template after the first `n` named groups that took part were put in.
pub open spec fn fill_named(t: Seq<char>, named: Seq<(Seq<char>, Option<Seq<char>>)>, n: nat) -> Seq<char>
    decreases n,
{
    if n == 0 || n > named.len() {
        t
    } else {
        let prev = fill_named(t, named, (n - 1) as nat);
        let g = named[n - 1];
        match g.1 {
            Some(v) => replaced(prev, named_slot(g.0), v),
            None => prev,
        }
    }
}

/// The template after the first `n` numbered groups (of five) that took part were put in.
pub open spec fn fill_positional(t: Seq<char>, groups: Seq<Option<Seq<char>>>, n: nat) -> Seq<char>
    decreases n,
{
    if n == 0 || n > groups.len() || n > 5 {
        t
    } else {
        let prev = fill_positional(t, groups, (n - 1) as nat);
        match groups[n - 1] {
            Some(v) => replaced(prev, positional_slot(n as int), v),
            None => prev,
        }
    }
}

/// A fix template with the captures put in: named groups first, then `$1` to `$5`.
pub open spec fn filled(t: Seq<char>, caps: (Seq<(Seq<char>, Option<Seq<char>>)>, Seq<Option<Seq<char>>>)) -> Seq<char> {
    let after_named = fill_named(t, caps.0, caps.0.len());
    let n = if caps.1.len() < 5 { caps.1.len() } else { 5 };
    fill_positional(after_named, caps.1, n)
}

fn copy_chars(s: &Vec<char>) -> (r: Vec<char>)
    ensures
        r@ == s@,
{
    let mut out: Vec<char> = Vec::new();
    let mut i: usize = 0;
    while i < s.len()
        invariant
            i <= s@.len(),
            out@ == s@.subrange(0, i as int),
        decreases s@.len() - i,
    {
        out.push(s[i]);
        i += 1;
        assert(out@ =~= s@.subrange(0, i as int));
    }
    assert(out@ =~= s@);
    out
}

/// `s` with every occurrence of `from` replaced by `to`.
pub fn replace_all(s: &Vec<char>, from: &Vec<char>, to: &Vec<char>) -> (r: Vec<char>)
    ensures
        r@ == replaced(s@, from@, to@),
{
    if from.len() == 0 {
        return copy_chars(s);
    }
    let n = s.len();
    let m = from.len();
    let mut out: Vec<char> = Vec::new();
    let mut i: usize = 0;
    assert(s@.subrange(0, n as int) =~= s@);
    assert(out@ + s@ =~= s@);
    while i < n
        invariant
            n == s@.len(),
            m == from@.len(),
            m > 0,
            i <= n,
            out@ + replaced(s@.subrange(i as int, n as int), from@, to@) == replaced(s@, from@, to@),
        decreases n - i,
    {
        let rest = Ghost(s@.subrange(i as int, n as int));
        if n - i >= m && occurs_at(s, from, i) {
            let ghost before = out@;
            let mut k: usize = 0;
            while k < to.len()
                invariant
                    k <= to@.len(),
                    out@ == before + to@.subrange(0, k as int),
                decreases to@.len() - k,
            {
                out.push(to[k]);
                k += 1;
                assert(out@ =~= before + to@.subrange(0, k as int));
            }
            proof {
                assert(to@.subrange(0, to@.len() as int) =~= to@);
                assert(s@.subrange(i as int, i + m) == from@);
                assert(rest@.subrange(0, m as int) =~= from@);
                assert(rest@.subrange(m as int, rest@.len() as int) =~= s@.subrange(i + m, n as int));
            }
            i += m;
        } else {
            let ghost before = out@;
            out.push(s[i]);
            proof {
                if rest@.len() >= m {
                    assert(rest@.subrange(0, m as int) =~= s@.subrange(i as int, i + m));
                    assert(rest@.subrange(0, m as int) != from@);
                }
                assert(rest@.drop_first() =~= s@.subrange(i + 1, n as int));
                assert(out@ =~= before + seq![s@[i as int]]);
            }
            i += 1;
        }
    }
    assert(s@.subrange(n as int, n as int) =~= Seq::<char>::empty());
    assert(out@ + Seq::<char>::empty() =~= out@);
    out
}

fn slot_chars(open: char, name: &Vec<char>, close: char) -> (r: Vec<char>)
    ensures
        r@ == seq![open, open] + name@ + seq![close, close],
{
    let mut out: Vec<char> = Vec::new();
    out.push(open);
    out.push(open);
    let mut i: usize = 0;
    while i < name.len()
        invariant
            i <= name@.len(),
            out@ == seq![open, open] + name@.subrange(0, i as int),
        decreases name@.len() - i,
    {
        out.push(name[i]);
        i += 1;
        assert(out@ =~= seq![open, open] + name@.subrange(0, i as int));
    }
    out.push(close);
    out.push(close);
    assert(out@ =~= seq![open, open] + name@ + seq![close, close]);
    out
}

/// A fix template with the captures of a match put in: each named group's
/// text for `{{name}}`, then the text of groups one to five for `$1` to `$5`.
pub fn fill_template(template: &str, caps: &RuleCaptures) -> (r: String)
    ensures
        r@ == filled(template@, caps.view_parts()),
{
    let ghost parts = caps.view_parts();
    let mut t = chars_of(template);
    let mut i: usize = 0;
    while i < caps.named.len()
        invariant
            parts == caps.view_parts(),
            i <= caps.named@.len(),
            t@ == fill_named(template@, parts.0, i as nat),
        decreases caps.named@.len() - i,
    {
        let g = &caps.named[i];
        match &g.1 {
            Some(v) => {
                let name = chars_of(g.0.as_str());
                let slot = slot_chars('{', &name, '}');
                let value = chars_of(v.as_str());
                t = replace_all(&t, &slot, &value);
            },
            None => {},
        }
        i += 1;
    }
    let n: usize = if caps.positional.len() < 5 { caps.positional.len() } else { 5 };
    let digits: Vec<char> = vec!['1', '2', '3', '4', '5'];
    let mut j: usize = 0;
    while j < n
        invariant
            parts == caps.view_parts(),
            n <= caps.positional@.len(),
            n <= 5,
            n == if caps.positional@.len() < 5 { caps.positional@.len() } else { 5 },
            digits@ == seq!['1', '2', '3', '4', '5'],
            j <= n,
            t@ == fill_positional(fill_named(template@, parts.0, parts.0.len()), parts.1, j as nat),
        decreases n - j,
    {
        match &caps.positional[j] {
            Some(v) => {
                let mut slot: Vec<char> = Vec::new();
                slot.push('$');
                slot.push(digits[j]);
                assert(slot@ =~= positional_slot(j + 1));
                let value = chars_of(v.as_str());
                t = replace_all(&t, &slot, &value);
            },
            None => {},
        }
        j += 1;
    }
    string_of(&t)
}

/// The default confidence of a rule, in percent.
pub const DEFAULT_CONFIDENCE: u32 = 60;

/// A fix rule: a pattern to match errors against and the command it suggests.
pub struct Rule {
    pub name: String,
    pub match_regex: String,
    pub fix_command: String,
    /// Confidence in percent; `DEFAULT_CONFIDENCE` where unset.
    pub confidence: Option<u32>,
    pub explanation: Option<String>,
}

/// The fix a rule gives: command, confidence in percent, explanation.
pub struct RuleFix {
    pub command: String,
    pub confidence: u32,
    pub explanation: String,
}

/// What a rule's pattern captures in `text`; `None` where the pattern does not
/// compile or does not match.
pub open spec fn rule_hit(rule: Rule, text: Seq<char>) -> Option<(Seq<(Seq<char>, Option<Seq<char>>)>, Seq<Option<Seq<char>>>)> {
    if pattern_compiles(rule.match_regex@) {
        captures_of(rule.match_regex@, text)
    } else {
        None
    }
}

/// The first rule, from position `i` on, whose pattern matches `text`.
pub open spec fn first_rule(rules: Seq<Rule>, text: Seq<char>, i: int) -> Option<int>
    decreases rules.len() - i,
{
    if i < 0 || i >= rules.len() {
        None
    } else if rule_hit(rules[i], text) is Some {
        Some(i)
    } else {
        first_rule(rules, text, i + 1)
    }
}

/// The fix the rule at `i` gives for `text`.
pub open spec fn fix_of(rules: Seq<Rule>, text: Seq<char>, i: int, fix: RuleFix) -> bool {
    let rule = rules[i];
    &&& fix.command@ == filled(rule.fix_command@, rule_hit(rule, text)->Some_0)
    &&& fix.confidence == match rule.confidence {
        Some(c) => c,
        None => DEFAULT_CONFIDENCE,
    }
    &&& fix.explanation@ == match rule.explanation {
        Some(e) => e@,
        None => Seq::<char>::empty(),
    }
}

/// The fix of the first rule, in order, whose pattern compiles and matches
/// `error_text`; rules whose pattern does not compile are passed over.
pub fn apply_rules(rules: &Vec<Rule>, error_text: &str) -> (r: Option<RuleFix>)
    ensures
        match first_rule(rules@, error_text@, 0) {
            None => r is None,
            Some(i) => r is Some && fix_of(rules@, error_text@, i, r->Some_0),
        },
{
    let mut i: usize = 0;
    while i < rules.len()
        invariant
            i <= rules@.len(),
            first_rule(rules@, error_text@, 0) == first_rule(rules@, error_text@, i as int),
        decreases rules@.len() - i,
    {
        let rule = &rules[i];
        match compile(rule.match_regex.as_str()) {
            Some(p) => {
                match captures(&p, error_text) {
                    Some(caps) => {
                        let command = fill_template(rule.fix_command.as_str(), &caps);
                        let confidence = match rule.confidence {
                            Some(c) => c,
                            None => DEFAULT_CONFIDENCE,
                        };
                        let explanation = match &rule.explanation {
                            Some(e) => e.clone(),
                            None => String::new(),
                        };
                        return Some(RuleFix { command, confidence, explanation });
                    },
                    None => {},
                }
            },
            None => {},
        }
        i += 1;
    }
    None
}

} // verus!
