//! Selectors by site: which selector to use for which address.

use vstd::prelude::*;
use vstd::string::*;
use crate::selector::{parse_selector, selector_view, Selector, SimpleSelector, SimpleSelectorParser};
use crate::text::{contains_text, text_contains};

verus! {

/// A rule of the configuration: for an address that contains `url`, the
/// article is where `selector` says.
#[derive(Debug, Clone, PartialEq, Eq)]
pub struct ConfigItem {
    pub url: String,
    pub selector: String,
}

/// What a [`ConfigItem`] stands for.
pub struct Rule {
    pub url: Seq<char>,
    pub selector: Seq<char>,
}

impl View for ConfigItem {
    type V = Rule;

    open spec fn view(&self) -> Rule {
        Rule { url: self.url@, selector: self.selector@ }
    }
}

/// The rules of a configuration, in their order.
pub open spec fn rules_of(config: Seq<ConfigItem>) -> Seq<Rule> {
    config.map_values(|item: ConfigItem| item@)
}

/// The selector for the address `url`: what the last rule writes whose `url`
/// is a part of the address, and what `default` writes where there is no such
/// rule. `None` where `default`, or a rule whose `url` is a part of the
/// address, does not write a selector.
pub open spec fn selector_for(url: Seq<char>, default: Seq<char>, rules: Seq<Rule>) -> Option<
    Selector,
>
    decreases rules.len(),
{
    if rules.len() == 0 {
        parse_selector(default)
    } else {
        match selector_for(url, default, rules.drop_last()) {
            None => None,
            Some(before) => if contains_text(url, rules.last().url) {
                parse_selector(rules.last().selector)
            } else {
                Some(before)
            },
        }
    }
}

/// Chooses the selector for the address `url` from `default` and the rules
/// of `config`.
pub fn choose_selector(url: &str, default: &str, config: &Vec<ConfigItem>) -> (selector: Option<
    SimpleSelector,
>)
    ensures
        selector_view(selector) == selector_for(url@, default@, rules_of(config@)),
{
    let ghost rules = rules_of(config@);
    let mut parser = SimpleSelectorParser::new(default);
    let mut selector = match parser.parse() {
        Some(s) => s,
        None => {
            proof {
                lemma_unreadable_stays(url@, default@, rules, 0, rules.len() as int);
                assert(rules.take(0) =~= Seq::<Rule>::empty());
                assert(rules.take(rules.len() as int) =~= rules);
            }
            return None;
        },
    };
    assert(rules.take(0) =~= Seq::<Rule>::empty());
    let mut i: usize = 0;
    while i < config.len()
        invariant
            i <= config@.len(),
            rules == rules_of(config@),
            selector_for(url@, default@, rules.take(i as int)) == Some(selector@),
        decreases config@.len() - i,
    {
        assert(rules.take(i + 1).drop_last() =~= rules.take(i as int));
        assert(rules.take(i + 1).last() == config@[i as int]@);
        if text_contains(url, config[i].url.as_str()) {
            let mut parser = SimpleSelectorParser::new(config[i].selector.as_str());
            match parser.parse() {
                Some(s) => {
                    selector = s;
                },
                None => {
                    proof {
                        lemma_unreadable_stays(url@, default@, rules, i + 1, rules.len() as int);
                        assert(rules.take(rules.len() as int) =~= rules);
                    }
                    return None;
                },
            }
        }
        i = i + 1;
    }
    assert(rules.take(rules.len() as int) =~= rules);
    Some(selector)
}

/// Once a rule that applies writes no selector, the rules that follow do
/// not mend it.
proof fn lemma_unreadable_stays(
    url: Seq<char>,
    default: Seq<char>,
    rules: Seq<Rule>,
    k: int,
    n: int,
)
    requires
        0 <= k <= n <= rules.len(),
        selector_for(url, default, rules.take(k)) is None,
    ensures
        selector_for(url, default, rules.take(n)) is None,
    decreases n - k,
{
    if k < n {
        lemma_unreadable_stays(url, default, rules, k, n - 1);
        assert(rules.take(n).drop_last() =~= rules.take(n - 1));
    }
}

} // verus!
