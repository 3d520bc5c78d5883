//! Rules that keep the messages of regular maintenance out of the analysis.

use vstd::prelude::*;

use crate::config::{QuietConfig, QuietTemplateRule};
use crate::pattern;
use crate::text;

verus! {

/// A rule whose pattern has been compiled.
struct CompiledRule {
    unit: Option<String>,
    pattern: regex::Regex,
}

/// What a rule says: the unit that it is about, if it is about one, and the
/// pattern of the messages.
pub ghost struct RuleView {
    pub unit: Option<Seq<char>>,
    pub pattern: Seq<char>,
}

/// The compiled rules, in the order in which they are tried.
pub struct QuietFilter {
    rules: Vec<CompiledRule>,
}

/// The rules whose patterns compile, in order.
pub open spec fn usable_rules(rules: Seq<QuietTemplateRule>) -> Seq<RuleView>
    decreases rules.len(),
{
    if rules.len() == 0 {
        Seq::empty()
    } else {
        let before = usable_rules(rules.drop_last());
        let rule = rules.last();
        if pattern::regex_compiles(rule.pattern@) {
            before.push(RuleView { unit: text::text_of(rule.unit), pattern: rule.pattern@ })
        } else {
            before
        }
    }
}

/// The patterns that do not compile, in order.
pub open spec fn unusable_patterns(rules: Seq<QuietTemplateRule>) -> Seq<Seq<char>>
    decreases rules.len(),
{
    if rules.len() == 0 {
        Seq::empty()
    } else {
        let before = unusable_patterns(rules.drop_last());
        let pattern = rules.last().pattern@;
        if pattern::regex_compiles(pattern) {
            before
        } else {
            before.push(pattern)
        }
    }
}

/// Whether a rule for `rule_unit` covers an event of `unit`, given whether its
/// pattern matched.
pub open spec fn applies(rule_unit: Option<Seq<char>>, unit: Option<Seq<char>>, matched: bool) -> bool {
    matched && (rule_unit is Some ==> unit == rule_unit)
}

/// Whether one of the rules covers the message of a unit.
pub open spec fn is_covered(rules: Seq<RuleView>, unit: Option<Seq<char>>, message: Seq<char>) -> bool {
    exists|i: int|
        0 <= i < rules.len() && applies(
            (#[trigger] rules[i]).unit,
            unit,
            pattern::regex_matches(rules[i].pattern, message),
        )
}

/// Whether a rule for `rule_unit` covers an event of `unit`, given whether its
/// pattern matched.
pub fn rule_applies(rule_unit: &Option<String>, unit: Option<&str>, matched: bool) -> (covers: bool)
    ensures
        covers == applies(text::text_of(*rule_unit), text::str_of(unit), matched),
{
    match rule_unit {
        None => matched,
        Some(expected) => match unit {
            None => false,
            Some(unit) => text::same_text(unit, expected.as_str()) && matched,
        },
    }
}

impl View for QuietFilter {
    type V = Seq<RuleView>;

    closed spec fn view(&self) -> Seq<RuleView> {
        Seq::new(
            self.rules@.len(),
            |i: int|
                RuleView {
                    unit: text::text_of(self.rules@[i].unit),
                    pattern: pattern::regex_source(self.rules@[i].pattern),
                },
        )
    }
}

impl QuietFilter {
    /// Compiles the rules. One whose pattern does not compile is left out;
    /// `find_unusable` lists those.
    pub fn new(config: &QuietConfig) -> (filter: QuietFilter)
        ensures
            filter@ == usable_rules(config.templates@),
    {
        let mut rules: Vec<CompiledRule> = Vec::new();
        let mut i: usize = 0;
        let ghost mut kept: Seq<RuleView> = Seq::empty();
        while i < config.templates.len()
            invariant
                i <= config.templates.len(),
                kept == usable_rules(config.templates@.take(i as int)),
                kept.len() == rules@.len(),
                forall|j: int|
                    0 <= j < rules@.len() ==> (#[trigger] kept[j]).unit == text::text_of(rules@[j].unit)
                        && kept[j].pattern == pattern::regex_source(rules@[j].pattern),
            decreases config.templates.len() - i,
        {
            let rule = &config.templates[i];
            proof {
                assert(config.templates@.take(i as int + 1).drop_last() =~= config.templates@.take(
                    i as int,
                ));
                assert(config.templates@.take(i as int + 1).last() == *rule);
            }
            match pattern::compile(rule.pattern.as_str()) {
                Ok(compiled) => {
                    let unit: Option<String> = match &rule.unit {
                        Some(unit) => Some(unit.clone()),
                        None => None,
                    };
                    proof {
                        kept =
                        kept.push(
                            RuleView { unit: text::text_of(rule.unit), pattern: rule.pattern@ },
                        );
                    }
                    rules.push(CompiledRule { unit, pattern: compiled });
                },
                Err(_) => {},
            }
            i += 1;
        }
        let filter = QuietFilter { rules };
        proof {
            assert(config.templates@.take(i as int) =~= config.templates@);
            assert(filter@ =~= kept);
        }
        filter
    }

    /// Whether a rule covers the message of a unit.
    pub fn is_quiet(&self, unit: Option<&str>, message: &str) -> (quiet: bool)
        ensures
            quiet == is_covered(self@, text::str_of(unit), message@),
    {
        let mut i: usize = 0;
        while i < self.rules.len()
            invariant
                i <= self.rules.len(),
                forall|j: int|
                    0 <= j < i ==> !applies(
                        (#[trigger] self@[j]).unit,
                        text::str_of(unit),
                        pattern::regex_matches(self@[j].pattern, message@),
                    ),
            decreases self.rules.len() - i,
        {
            let rule = &self.rules[i];
            let matched = pattern::is_match(&rule.pattern, message);
            if rule_applies(&rule.unit, unit, matched) {
                proof {
                    assert(self@[i as int].unit == text::text_of(rule.unit));
                }
                return true;
            }
            i += 1;
        }
        false
    }
}

/// Lists the patterns that do not compile, for a warning to whoever wrote the rules.
pub fn find_unusable(config: &QuietConfig) -> (patterns: Vec<String>)
    ensures
        text::texts(patterns@) == unusable_patterns(config.templates@),
{
    let mut patterns: Vec<String> = Vec::new();
    let mut i: usize = 0;
    proof {
        assert(text::texts(patterns@) =~= unusable_patterns(config.templates@.take(0)));
    }
    while i < config.templates.len()
        invariant
            i <= config.templates.len(),
            text::texts(patterns@) == unusable_patterns(config.templates@.take(i as int)),
        decreases config.templates.len() - i,
    {
        let rule = &config.templates[i];
        let ghost before = text::texts(patterns@);
        proof {
            assert(config.templates@.take(i as int + 1).drop_last() =~= config.templates@.take(
                i as int,
            ));
            assert(config.templates@.take(i as int + 1).last() == *rule);
        }
        match pattern::compile(rule.pattern.as_str()) {
            Ok(_) => {},
            Err(_) => {
                patterns.push(rule.pattern.as_str().to_string());
                proof {
                    assert(text::texts(patterns@) =~= before.push(rule.pattern@));
                }
            },
        }
        i += 1;
    }
    proof {
        assert(config.templates@.take(i as int) =~= config.templates@);
    }
    patterns
}

/// No rule goes unnoticed: each is used, or its pattern is listed as unusable.
pub proof fn no_rule_goes_unnoticed(rules: Seq<QuietTemplateRule>, k: int)
    requires
        0 <= k < rules.len(),
    ensures
        usable_rules(rules).len() + unusable_patterns(rules).len() == rules.len(),
        usable_rules(rules).contains(
            RuleView { unit: text::text_of(rules[k].unit), pattern: rules[k].pattern@ },
        ) || unusable_patterns(rules).contains(rules[k].pattern@),
    decreases rules.len(),
{
    let earlier = rules.drop_last();
    let rule = RuleView { unit: text::text_of(rules[k].unit), pattern: rules[k].pattern@ };
    if earlier.len() > 0 {
        no_rule_goes_unnoticed(
            earlier,
            if k < earlier.len() {
                k
            } else {
                0
            },
        );
    } else {
        assert(usable_rules(earlier).len() == 0);
        assert(unusable_patterns(earlier).len() == 0);
    }
    if k < earlier.len() {
        assert(earlier[k] == rules[k]);
        if usable_rules(earlier).contains(rule) {
            let i = choose|i: int| 0 <= i < usable_rules(earlier).len() && usable_rules(earlier)[i] == rule;
            assert(usable_rules(rules)[i] == rule);
        } else {
            let i = choose|i: int|
                0 <= i < unusable_patterns(earlier).len() && unusable_patterns(earlier)[i]
                    == rules[k].pattern@;
            assert(unusable_patterns(rules)[i] == rules[k].pattern@);
        }
    } else if pattern::regex_compiles(rule.pattern) {
        assert(usable_rules(rules)[usable_rules(rules).len() - 1] == rule);
    } else {
        assert(unusable_patterns(rules)[unusable_patterns(rules).len() - 1] == rule.pattern);
    }
}

/// Without rules nothing is kept out.
pub proof fn no_rules_cover_nothing(unit: Option<Seq<char>>, message: Seq<char>)
    ensures
        !is_covered(usable_rules(Seq::empty()), unit, message),
{
}

/// A rule whose pattern compiles and matches, and that is about no unit or the
/// unit of the event, covers the event, whatever other rules there are.
pub proof fn usable_rule_covers(
    rules: Seq<QuietTemplateRule>,
    k: int,
    unit: Option<Seq<char>>,
    message: Seq<char>,
)
    requires
        0 <= k < rules.len(),
        pattern::regex_compiles(rules[k].pattern@),
        applies(
            text::text_of(rules[k].unit),
            unit,
            pattern::regex_matches(rules[k].pattern@, message),
        ),
    ensures
        is_covered(usable_rules(rules), unit, message),
    decreases rules.len(),
{
    let kept = usable_rules(rules);
    let before = usable_rules(rules.drop_last());
    if k == rules.len() - 1 {
        let i = kept.len() - 1;
        assert(kept[i].pattern == rules[k].pattern@);
        assert(applies(kept[i].unit, unit, pattern::regex_matches(kept[i].pattern, message)));
    } else {
        assert(rules.drop_last()[k] == rules[k]);
        usable_rule_covers(rules.drop_last(), k, unit, message);
        let i = choose|i: int|
            0 <= i < before.len() && applies(
                (#[trigger] before[i]).unit,
                unit,
                pattern::regex_matches(before[i].pattern, message),
            );
        assert(kept[i] == before[i]);
    }
}

/// Rules cover a message of a unit exactly if one of them has a pattern that compiles and
/// matches, and is about no unit in particular or about that one. An event without a unit
/// is covered only by rules about no unit in particular.
pub proof fn rules_cover_what_they_are_about(
    rules: Seq<QuietTemplateRule>,
    unit: Option<Seq<char>>,
    message: Seq<char>,
)
    ensures
        is_covered(usable_rules(rules), unit, message) <==> exists|k: int|
            0 <= k < rules.len() && pattern::regex_compiles((#[trigger] rules[k]).pattern@)
                && pattern::regex_matches(rules[k].pattern@, message) && match rules[k].unit {
                Some(name) => unit == Some(name@),
                None => true,
            },
    decreases rules.len(),
{
    if rules.len() > 0 {
        let earlier = rules.drop_last();
        let last = rules.len() - 1;
        rules_cover_what_they_are_about(earlier, unit, message);
        let before = usable_rules(earlier);
        let all = usable_rules(rules);
        if is_covered(before, unit, message) {
            let k = choose|k: int|
                0 <= k < earlier.len() && pattern::regex_compiles((#[trigger] earlier[k]).pattern@)
                    && pattern::regex_matches(earlier[k].pattern@, message) && match earlier[k].unit {
                    Some(name) => unit == Some(name@),
                    None => true,
                };
            assert(rules[k] == earlier[k]);
            usable_rule_covers(rules, k, unit, message);
        }
        if exists|k: int|
            0 <= k < rules.len() && pattern::regex_compiles((#[trigger] rules[k]).pattern@)
                && pattern::regex_matches(rules[k].pattern@, message) && match rules[k].unit {
                Some(name) => unit == Some(name@),
                None => true,
            } {
            let k = choose|k: int|
                0 <= k < rules.len() && pattern::regex_compiles((#[trigger] rules[k]).pattern@)
                    && pattern::regex_matches(rules[k].pattern@, message) && match rules[k].unit {
                    Some(name) => unit == Some(name@),
                    None => true,
                };
            usable_rule_covers(rules, k, unit, message);
        }
        if is_covered(all, unit, message) {
            let i = choose|i: int|
                0 <= i < all.len() && applies(
                    (#[trigger] all[i]).unit,
                    unit,
                    pattern::regex_matches(all[i].pattern, message),
                );
            if i < before.len() {
                assert(before[i] == all[i]);
                assert(is_covered(before, unit, message));
                let k = choose|k: int|
                    0 <= k < earlier.len() && pattern::regex_compiles(
                        (#[trigger] earlier[k]).pattern@,
                    ) && pattern::regex_matches(earlier[k].pattern@, message)
                        && match earlier[k].unit {
                        Some(name) => unit == Some(name@),
                        None => true,
                    };
                assert(rules[k] == earlier[k]);
            } else {
                assert(pattern::regex_compiles(rules[last].pattern@));
            }
        }
    }
}

/// A filter that is made of rules keeps a message quiet exactly if one of them has a
/// pattern that compiles and matches, and is about no unit in particular or about that of
/// the message.
pub proof fn a_filter_keeps_its_rules(
    config: &QuietConfig,
    filter: QuietFilter,
    unit: Option<&str>,
    message: &str,
    quiet: bool,
)
    requires
        call_ensures(QuietFilter::new, (config,), filter),
        call_ensures(QuietFilter::is_quiet, (&filter, unit, message), quiet),
    ensures
        quiet <==> exists|k: int|
            0 <= k < config.templates@.len() && pattern::regex_compiles(
                (#[trigger] config.templates@[k]).pattern@,
            ) && pattern::regex_matches(config.templates@[k].pattern@, message@)
                && match config.templates@[k].unit {
                Some(name) => text::str_of(unit) == Some(name@),
                None => true,
            },
{
    rules_cover_what_they_are_about(config.templates@, text::str_of(unit), message@);
}

/// A rule about a unit applies to that unit alone, one about none to all; and only where
/// its pattern matched.
pub proof fn a_rule_applies_to_its_unit(
    rule_unit: &Option<String>,
    unit: Option<&str>,
    matched: bool,
    covers: bool,
)
    requires
        call_ensures(rule_applies, (rule_unit, unit, matched), covers),
    ensures
        !matched ==> !covers,
        *rule_unit is None ==> covers == matched,
        *rule_unit matches Some(expected) ==> (covers <==> matched && (unit matches Some(name)
            && name@ == expected@)),
{
}

/// The patterns that are listed as unusable are just those that do not compile.
pub proof fn what_does_not_compile_is_listed(config: &QuietConfig, patterns: Vec<String>, k: int)
    requires
        call_ensures(find_unusable, (config,), patterns),
        0 <= k < config.templates@.len(),
    ensures
        !pattern::regex_compiles(config.templates@[k].pattern@) ==> text::texts(
            patterns@,
        ).contains(config.templates@[k].pattern@),
        forall|i: int|
            0 <= i < patterns@.len() ==> !pattern::regex_compiles(
                #[trigger] text::texts(patterns@)[i],
            ),
{
    let rules = config.templates@;
    listed_do_not_compile(rules);
    no_rule_goes_unnoticed(rules, k);
    if !pattern::regex_compiles(rules[k].pattern@) {
        used_do_compile(rules);
        let rule = RuleView { unit: text::text_of(rules[k].unit), pattern: rules[k].pattern@ };
        if usable_rules(rules).contains(rule) {
            let i = choose|i: int|
                0 <= i < usable_rules(rules).len() && usable_rules(rules)[i] == rule;
            assert(pattern::regex_compiles(usable_rules(rules)[i].pattern));
        }
    }
}

proof fn listed_do_not_compile(rules: Seq<QuietTemplateRule>)
    ensures
        forall|i: int|
            0 <= i < unusable_patterns(rules).len() ==> !pattern::regex_compiles(
                #[trigger] unusable_patterns(rules)[i],
            ),
    decreases rules.len(),
{
    if rules.len() > 0 {
        listed_do_not_compile(rules.drop_last());
        let before = unusable_patterns(rules.drop_last());
        assert forall|i: int| 0 <= i < unusable_patterns(rules).len() implies !pattern::regex_compiles(
            #[trigger] unusable_patterns(rules)[i],
        ) by {
            if i < before.len() {
                assert(unusable_patterns(rules)[i] == before[i]);
            }
        }
    }
}

proof fn used_do_compile(rules: Seq<QuietTemplateRule>)
    ensures
        forall|i: int|
            0 <= i < usable_rules(rules).len() ==> pattern::regex_compiles(
                (#[trigger] usable_rules(rules)[i]).pattern,
            ),
    decreases rules.len(),
{
    if rules.len() > 0 {
        used_do_compile(rules.drop_last());
        let before = usable_rules(rules.drop_last());
        assert forall|i: int| 0 <= i < usable_rules(rules).len() implies pattern::regex_compiles(
            (#[trigger] usable_rules(rules)[i]).pattern,
        ) by {
            if i < before.len() {
                assert(usable_rules(rules)[i] == before[i]);
            }
        }
    }
}

} // verus!
