//! Rule kinds and the decoding of host options into a rule selection.

use vstd::prelude::*;

verus! {

/// A rule of the orthography checker.
#[derive(Clone, Copy, Debug, PartialEq, Eq, Structural)]
pub enum Rule {
    MissingDoubleAccents,
    MissingAccentCapital,
    DuplicatedWord,
    AddFinalN,
    RemoveFinalN,
    OutdatedSpelling,
    MonosyllableAccented,
    MultisyllableNotAccented,
    MixedScripts,
    AmbiguousChar,
}

/// The upper-camel-case identifier of a rule.
pub open spec fn rule_name(r: Rule) -> Seq<char> {
    match r {
        Rule::MissingDoubleAccents => "MissingDoubleAccents"@,
        Rule::MissingAccentCapital => "MissingAccentCapital"@,
        Rule::DuplicatedWord => "DuplicatedWord"@,
        Rule::AddFinalN => "AddFinalN"@,
        Rule::RemoveFinalN => "RemoveFinalN"@,
        Rule::OutdatedSpelling => "OutdatedSpelling"@,
        Rule::MonosyllableAccented => "MonosyllableAccented"@,
        Rule::MultisyllableNotAccented => "MultisyllableNotAccented"@,
        Rule::MixedScripts => "MixedScripts"@,
        Rule::AmbiguousChar => "AmbiguousChar"@,
    }
}

impl Rule {
    /// The upper-camel-case identifier of this rule.
    pub fn name(&self) -> (r: &'static str)
        ensures
            r@ == rule_name(*self),
    {
        match self {
            Rule::MissingDoubleAccents => "MissingDoubleAccents",
            Rule::MissingAccentCapital => "MissingAccentCapital",
            Rule::DuplicatedWord => "DuplicatedWord",
            Rule::AddFinalN => "AddFinalN",
            Rule::RemoveFinalN => "RemoveFinalN",
            Rule::OutdatedSpelling => "OutdatedSpelling",
            Rule::MonosyllableAccented => "MonosyllableAccented",
            Rule::MultisyllableNotAccented => "MultisyllableNotAccented",
            Rule::MixedScripts => "MixedScripts",
            Rule::AmbiguousChar => "AmbiguousChar",
        }
    }
}

/// Every rule, in the checker's declared order: the selection used when the
/// host gives no options.
pub open spec fn default_rules() -> Seq<Rule> {
    seq![
        Rule::MissingDoubleAccents,
        Rule::MissingAccentCapital,
        Rule::DuplicatedWord,
        Rule::AddFinalN,
        Rule::RemoveFinalN,
        Rule::OutdatedSpelling,
        Rule::MonosyllableAccented,
        Rule::MultisyllableNotAccented,
        Rule::MixedScripts,
        Rule::AmbiguousChar,
    ]
}

/// The rules that a sequence of option entries enables, in the order of the
/// entries, each rule once.
///
/// An entry pairs the rule its code stands for (`None` for a code that names no
/// rule) with its flag. An entry is taken when its code names a rule, its flag
/// is set, and an earlier entry has not already taken that rule.
pub open spec fn selected(entries: Seq<(Option<Rule>, bool)>) -> Seq<Rule>
    decreases entries.len(),
{
    if entries.len() == 0 {
        Seq::empty()
    } else {
        let prev = selected(entries.drop_last());
        let entry = entries.last();
        match entry.0 {
            Some(r) => if entry.1 && !prev.contains(r) {
                prev.push(r)
            } else {
                prev
            },
            None => prev,
        }
    }
}

/// The rule selection for host options: every rule when there are none.
pub open spec fn select_spec(options: Option<Seq<(Option<Rule>, bool)>>) -> Seq<Rule> {
    match options {
        None => default_rules(),
        Some(entries) => selected(entries),
    }
}

/// A selection holds each rule at most once, and holds a rule exactly when
/// some entry names it with its flag set.
pub proof fn lemma_selected_members(entries: Seq<(Option<Rule>, bool)>, r: Rule)
    ensures
        selected(entries).no_duplicates(),
        selected(entries).contains(r) <==> exists|i: int|
            0 <= i < entries.len() && #[trigger] entries[i] == (Some(r), true),
    decreases entries.len(),
{
    if entries.len() > 0 {
        let prefix = entries.drop_last();
        lemma_selected_members(prefix, r);
        let last = entries.last();
        if let Some(k) = last.0 {
            lemma_selected_members(prefix, k);
        }
        let prev = selected(prefix);
        let cur = selected(entries);
        assert(forall|j: int| 0 <= j < prev.len() ==> cur[j] == prev[j]);
        if prev.contains(r) {
            let j = choose|j: int| 0 <= j < prev.len() && prev[j] == r;
            assert(cur[j] == r);
            let i = choose|i: int| 0 <= i < prefix.len() && #[trigger] prefix[i] == (Some(r), true);
            assert(entries[i] == (Some(r), true));
        } else {
            if cur.contains(r) {
                let j = choose|j: int| 0 <= j < cur.len() && cur[j] == r;
                assert(j == prev.len());
                assert(entries[entries.len() - 1] == (Some(r), true));
            }
            if exists|i: int| 0 <= i < entries.len() && #[trigger] entries[i] == (Some(r), true) {
                let i = choose|i: int| 0 <= i < entries.len() && #[trigger] entries[i] == (Some(r), true);
                if i < entries.len() - 1 {
                    assert(prefix[i] == (Some(r), true));
                }
                assert(cur[prev.len() as int] == r);
            }
        }
    }
}

/// Options that decode to no entries, as malformed options do, select no rule.
pub proof fn lemma_empty_options_select_nothing()
    ensures
        select_spec(Some(Seq::<(Option<Rule>, bool)>::empty())) == Seq::<Rule>::empty(),
{
}

/// Absent options select every rule, in the checker's declared order.
pub proof fn lemma_absent_options_select_all()
    ensures
        select_spec(None) == default_rules(),
        default_rules().len() == 10,
        default_rules().no_duplicates(),
{
}

/// Every rule, in the checker's declared order.
pub fn all_rules() -> (r: Vec<Rule>)
    ensures
        r@ == default_rules(),
{
    let mut r: Vec<Rule> = Vec::new();
    r.push(Rule::MissingDoubleAccents);
    r.push(Rule::MissingAccentCapital);
    r.push(Rule::DuplicatedWord);
    r.push(Rule::AddFinalN);
    r.push(Rule::RemoveFinalN);
    r.push(Rule::OutdatedSpelling);
    r.push(Rule::MonosyllableAccented);
    r.push(Rule::MultisyllableNotAccented);
    r.push(Rule::MixedScripts);
    r.push(Rule::AmbiguousChar);
    assert(r@ =~= default_rules());
    r
}

fn contains_rule(v: &Vec<Rule>, r: Rule) -> (b: bool)
    ensures
        b == v@.contains(r),
{
    let mut i: usize = 0;
    while i < v.len()
        invariant
            i <= v.len(),
            forall|j: int| 0 <= j < i ==> v@[j] != r,
        decreases v.len() - i,
    {
        if v[i] == r {
            assert(v@[i as int] == r);
            return true;
        }
        i = i + 1;
    }
    false
}

/// Resolves host options into a rule selection.
///
/// `None` stands for absent options and selects every rule. Otherwise each
/// entry holds the rule that its code names (`None` for an unknown code) and
/// its flag; the result holds the enabled, known rules in entry order, without
/// repeats. Options that could not be decoded arrive as an empty list.
pub fn load_config(options: Option<Vec<(Option<Rule>, bool)>>) -> (r: Vec<Rule>)
    ensures
        r@ == select_spec(
            match options {
                Some(v) => Some(v@),
                None => None,
            },
        ),
{
    match options {
        None => all_rules(),
        Some(entries) => {
            let mut out: Vec<Rule> = Vec::new();
            let mut i: usize = 0;
            while i < entries.len()
                invariant
                    i <= entries.len(),
                    out@ == selected(entries@.take(i as int)),
                decreases entries.len() - i,
            {
                let entry = entries[i];
                assert(entries@.take(i as int + 1).drop_last() =~= entries@.take(i as int));
                if let Some(rule) = entry.0 {
                    if entry.1 && !contains_rule(&out, rule) {
                        out.push(rule);
                    }
                }
                i = i + 1;
            }
            assert(entries@.take(i as int) =~= entries@);
            out
        },
    }
}

} // verus!
