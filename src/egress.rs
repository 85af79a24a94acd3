//! The egress policy document: groups of rules, and narrowing it to the
//! groups that a list of selectors names.

use vstd::prelude::*;
use vstd::string::*;
use crate::filters::{lemma_filter_membership, lemma_filter_same_pred, lemma_filter_twice};
use crate::text::{eq_ignore_ascii_case, eq_ignore_ascii_case_seq, str_eq};

verus! {

/// Selector that keeps only the mandatory groups.
pub const REQUIRED_EGRESS_ONLY: &'static str = "required-egress-only";

/// Selector that keeps only the optional groups.
pub const OPTIONAL_EGRESS_ONLY: &'static str = "optional-egress-only";

/// One destination that a node must (or may) reach.
pub struct EgressRule {
    pub name: String,
    /// Destination template; may hold `{region}`, or be the wildcard `*`.
    pub dst: String,
    pub protocol: String,
    pub port: String,
    pub description: String,
    pub required_private: bool,
    /// Disabled rules are never checked nor reported.
    pub rule_enabled: bool,
}

/// A named, independently toggled collection of rules.
pub struct EgressGroup {
    pub enabled: bool,
    pub name: String,
    /// Mandatory (`true`) or optional (`false`) egress.
    pub required_group: bool,
    pub rules: Vec<EgressRule>,
}

/// The policy document.
pub struct EgressData {
    pub egress_version: String,
    pub name: String,
    pub groups: Vec<EgressGroup>,
}

/// What a group holds, as mathematical values.
pub struct GroupView {
    pub enabled: bool,
    pub name: Seq<char>,
    pub required_group: bool,
    pub rules: Seq<EgressRule>,
}

/// What a policy document holds, as mathematical values.
pub struct DataView {
    pub egress_version: Seq<char>,
    pub name: Seq<char>,
    pub groups: Seq<GroupView>,
}

impl View for EgressGroup {
    type V = GroupView;

    open spec fn view(&self) -> GroupView {
        GroupView {
            enabled: self.enabled,
            name: self.name@,
            required_group: self.required_group,
            rules: self.rules@,
        }
    }
}

pub open spec fn group_views(groups: Seq<EgressGroup>) -> Seq<GroupView> {
    groups.map_values(|g: EgressGroup| g@)
}

impl View for EgressData {
    type V = DataView;

    open spec fn view(&self) -> DataView {
        DataView {
            egress_version: self.egress_version@,
            name: self.name@,
            groups: group_views(self.groups@),
        }
    }
}

impl Clone for EgressRule {
    fn clone(&self) -> (r: Self)
        ensures
            r == *self,
    {
        EgressRule {
            name: self.name.clone(),
            dst: self.dst.clone(),
            protocol: self.protocol.clone(),
            port: self.port.clone(),
            description: self.description.clone(),
            required_private: self.required_private,
            rule_enabled: self.rule_enabled,
        }
    }
}

impl Clone for EgressGroup {
    fn clone(&self) -> (r: Self)
        ensures
            r@ == self@,
    {
        let rules = self.rules.clone();
        assert(rules@ =~= self.rules@);
        EgressGroup {
            enabled: self.enabled,
            name: self.name.clone(),
            required_group: self.required_group,
            rules,
        }
    }
}

pub open spec fn rule_enabled_pred() -> spec_fn(EgressRule) -> bool {
    |r: EgressRule| r.rule_enabled
}

/// The enabled rules, in order.
pub open spec fn enabled_rules(rules: Seq<EgressRule>) -> Seq<EgressRule> {
    rules.filter(rule_enabled_pred())
}

/// The selectors as mathematical strings.
pub open spec fn selector_views(selected: Seq<&String>) -> Seq<Seq<char>> {
    selected.map_values(|s: &String| s@)
}

/// Exactly one selector, equal up to ASCII case to `required-egress-only`.
pub open spec fn is_required_only(sel: Seq<Seq<char>>) -> bool {
    sel.len() == 1 && eq_ignore_ascii_case_seq(sel[0], REQUIRED_EGRESS_ONLY@)
}

/// Exactly one selector, equal up to ASCII case to `optional-egress-only`.
pub open spec fn is_optional_only(sel: Seq<Seq<char>>) -> bool {
    sel.len() == 1 && eq_ignore_ascii_case_seq(sel[0], OPTIONAL_EGRESS_ONLY@)
}

/// Whether the selectors keep group `g`: by its kind for the two keywords,
/// else by an exact match of its name.
pub open spec fn keeps_group(sel: Seq<Seq<char>>, g: GroupView) -> bool {
    if is_required_only(sel) {
        g.required_group
    } else if is_optional_only(sel) {
        !g.required_group
    } else {
        sel.contains(g.name)
    }
}

pub open spec fn group_filter(sel: Seq<Seq<char>>) -> spec_fn(GroupView) -> bool {
    |g: GroupView| keeps_group(sel, g)
}

/// The groups that the selectors keep, in their order.
pub open spec fn selected_groups(groups: Seq<GroupView>, sel: Seq<Seq<char>>) -> Seq<GroupView> {
    groups.filter(group_filter(sel))
}

/// Whether some selector is exactly `name`.
fn name_selected(selected: &Vec<&String>, name: &String) -> (r: bool)
    ensures
        r == selector_views(selected@).contains(name@),
{
    let ghost sel = selector_views(selected@);
    let mut i: usize = 0;
    while i < selected.len()
        invariant
            i <= selected@.len(),
            sel == selector_views(selected@),
            forall|j: int| 0 <= j < i ==> sel[j] != name@,
        decreases selected@.len() - i,
    {
        if str_eq(selected[i].as_str(), name.as_str()) {
            assert(sel[i as int] == name@);
            return true;
        }
        i = i + 1;
    }
    false
}

impl EgressData {
    /// Narrows the groups to those that the selectors keep (see
    /// `keeps_group`); nothing else changes. Selectors that match no group
    /// leave no group.
    pub fn filter_groups(&mut self, selected: &Vec<&String>)
        ensures
            final(self)@.egress_version == old(self)@.egress_version,
            final(self)@.name == old(self)@.name,
            final(self)@.groups == selected_groups(old(self)@.groups, selector_views(selected@)),
    {
        let ghost sel = selector_views(selected@);
        let ghost pred = group_filter(sel);
        let mut required_only = false;
        let mut optional_only = false;
        if selected.len() == 1 {
            if eq_ignore_ascii_case(selected[0].as_str(), REQUIRED_EGRESS_ONLY) {
                required_only = true;
            } else if eq_ignore_ascii_case(selected[0].as_str(), OPTIONAL_EGRESS_ONLY) {
                optional_only = true;
            }
        }
        assert(required_only == is_required_only(sel));
        assert(optional_only == (!is_required_only(sel) && is_optional_only(sel)));
        let ghost groups = self@.groups;
        let mut kept: Vec<EgressGroup> = Vec::new();
        let mut i: usize = 0;
        while i < self.groups.len()
            invariant
                i <= self.groups@.len(),
                groups == group_views(self.groups@),
                sel == selector_views(selected@),
                pred == group_filter(sel),
                required_only == is_required_only(sel),
                optional_only == (!is_required_only(sel) && is_optional_only(sel)),
                group_views(kept@) == groups.subrange(0, i as int).filter(pred),
            decreases self.groups@.len() - i,
        {
            let g = &self.groups[i];
            let keep = if required_only {
                g.required_group
            } else if optional_only {
                !g.required_group
            } else {
                name_selected(selected, &g.name)
            };
            assert(keep == pred(groups[i as int]));
            proof {
                reveal(Seq::filter);
                assert(groups.subrange(0, i + 1).drop_last() =~= groups.subrange(0, i as int));
            }
            if keep {
                let ghost before = kept@;
                kept.push(g.clone());
                assert(group_views(kept@) =~= group_views(before).push(groups[i as int]));
            }
            i = i + 1;
        }
        assert(groups.subrange(0, groups.len() as int) =~= groups);
        self.groups = kept;
    }
}


/// With the single selector `required-egress-only` (in any ASCII case) the
/// selection is exactly the mandatory groups, in their order, whatever their
/// number; selecting again keeps the same groups.
pub proof fn lemma_required_only_selection(groups: Seq<GroupView>, sel: Seq<Seq<char>>)
    requires
        is_required_only(sel),
    ensures
        selected_groups(groups, sel) == groups.filter(|g: GroupView| g.required_group),
        forall|g: GroupView|
            selected_groups(groups, sel).contains(g) <==> (groups.contains(g) && g.required_group),
        selected_groups(selected_groups(groups, sel), sel) == selected_groups(groups, sel),
{
    lemma_filter_same_pred(groups, group_filter(sel), |g: GroupView| g.required_group);
    lemma_filter_membership(groups, group_filter(sel));
    lemma_filter_twice(groups, group_filter(sel));
}

/// With selectors other than a single keyword, the selection is exactly the
/// groups whose name equals one of the selectors, in their order; when no
/// group has such a name, nothing is selected.
pub proof fn lemma_selection_by_name(groups: Seq<GroupView>, sel: Seq<Seq<char>>)
    requires
        !is_required_only(sel),
        !is_optional_only(sel),
    ensures
        selected_groups(groups, sel) == groups.filter(|g: GroupView| sel.contains(g.name)),
        forall|g: GroupView|
            selected_groups(groups, sel).contains(g) <==> (groups.contains(g) && sel.contains(g.name)),
        (forall|i: int| 0 <= i < groups.len() ==> !sel.contains(#[trigger] groups[i].name))
            ==> selected_groups(groups, sel).len() == 0,
{
    let kept = selected_groups(groups, sel);
    lemma_filter_same_pred(groups, group_filter(sel), |g: GroupView| sel.contains(g.name));
    lemma_filter_membership(groups, group_filter(sel));
    if (forall|i: int| 0 <= i < groups.len() ==> !sel.contains(#[trigger] groups[i].name))
        && kept.len() > 0 {
        let x = kept[0];
        assert(kept.contains(x));
        assert(groups.filter(group_filter(sel)).contains(x));
        assert(groups.contains(x) && group_filter(sel)(x));
        let i = choose|i: int| 0 <= i < groups.len() && groups[i] == x;
        assert(!sel.contains(groups[i].name));
    }
}


/// Table cell for a flag.
pub open spec fn yes_no(b: bool) -> Seq<char> {
    if b {
        "Yes"@
    } else {
        "No"@
    }
}

/// Table row of a rule in group `group_name`: group, name, destination,
/// port, protocol, required for private clusters, enabled.
pub open spec fn rule_row(group_name: Seq<char>, r: EgressRule) -> Seq<Seq<char>> {
    seq![group_name, r.name@, r.dst@, r.port@, r.protocol@, yes_no(r.required_private), yes_no(r.rule_enabled)]
}

/// Table rows of a group: one per enabled rule, in order.
pub open spec fn group_rows(g: GroupView) -> Seq<Seq<Seq<char>>> {
    enabled_rules(g.rules).map_values(|r: EgressRule| rule_row(g.name, r))
}

/// Table rows of a sequence of groups, group after group.
pub open spec fn table_rows_of(groups: Seq<GroupView>) -> Seq<Seq<Seq<char>>>
    decreases groups.len(),
{
    if groups.len() == 0 {
        Seq::empty()
    } else {
        table_rows_of(groups.drop_last()) + group_rows(groups.last())
    }
}

pub open spec fn row_views(rows: Seq<Vec<String>>) -> Seq<Seq<Seq<char>>> {
    rows.map_values(|row: Vec<String>| row@.map_values(|s: String| s@))
}

fn yes_no_cell(b: bool) -> (r: String)
    ensures
        r@ == yes_no(b),
{
    if b {
        "Yes".to_owned()
    } else {
        "No".to_owned()
    }
}

fn push_group_rows(rows: &mut Vec<Vec<String>>, g: &EgressGroup)
    ensures
        row_views(final(rows)@) == row_views(old(rows)@) + group_rows(g@),
{
    let ghost start = row_views(rows@);
    let ghost rules = g.rules@;
    let ghost f = |r: EgressRule| rule_row(g.name@, r);
    let mut j: usize = 0;
    assert(enabled_rules(rules.subrange(0, 0)) =~= Seq::<EgressRule>::empty()) by {
        reveal(Seq::filter);
    }
    assert(start + Seq::<Seq<Seq<char>>>::empty() =~= start);
    while j < g.rules.len()
        invariant
            j <= rules.len(),
            rules == g.rules@,
            f == (|r: EgressRule| rule_row(g.name@, r)),
            row_views(rows@) == start + enabled_rules(rules.subrange(0, j as int)).map_values(f),
        decreases rules.len() - j,
    {
        let r = &g.rules[j];
        let ghost prev = enabled_rules(rules.subrange(0, j as int));
        proof {
            reveal(Seq::filter);
            assert(rules.subrange(0, j + 1).drop_last() =~= rules.subrange(0, j as int));
            assert(rules.subrange(0, j + 1).last() == rules[j as int]);
        }
        if r.rule_enabled {
            let mut row: Vec<String> = Vec::new();
            row.push(g.name.clone());
            row.push(r.name.clone());
            row.push(r.dst.clone());
            row.push(r.port.clone());
            row.push(r.protocol.clone());
            row.push(yes_no_cell(r.required_private));
            row.push(yes_no_cell(r.rule_enabled));
            assert(row@.map_values(|s: String| s@) =~= f(rules[j as int]));
            let ghost before = rows@;
            rows.push(row);
            assert(enabled_rules(rules.subrange(0, j + 1)) == prev.push(rules[j as int]));
            assert(prev.push(rules[j as int]).map_values(f) =~= prev.map_values(f).push(
                f(rules[j as int]),
            ));
            assert(row_views(rows@) =~= row_views(before).push(f(rules[j as int])));
            assert(row_views(rows@) =~= start + enabled_rules(rules.subrange(0, j + 1)).map_values(
                f,
            ));
        }
        j = j + 1;
    }
    assert(rules.subrange(0, rules.len() as int) =~= rules);
}

/// The rows of a table that lists the enabled rules of every group, group
/// after group (see `rule_row`).
pub fn table_rows(data: &EgressData) -> (r: Vec<Vec<String>>)
    ensures
        row_views(r@) == table_rows_of(data@.groups),
{
    let ghost gs = data@.groups;
    let mut rows: Vec<Vec<String>> = Vec::new();
    let mut i: usize = 0;
    assert(row_views(rows@) =~= Seq::<Seq<Seq<char>>>::empty());
    while i < data.groups.len()
        invariant
            i <= gs.len(),
            gs == group_views(data.groups@),
            row_views(rows@) == table_rows_of(gs.subrange(0, i as int)),
        decreases gs.len() - i,
    {
        push_group_rows(&mut rows, &data.groups[i]);
        assert(gs.subrange(0, i + 1).drop_last() =~= gs.subrange(0, i as int));
        assert(gs.subrange(0, i + 1).last() == data.groups@[i as int]@);
        i = i + 1;
    }
    assert(gs.subrange(0, gs.len() as int) =~= gs);
    rows
}

/// Directory of the policy files when running locally.
pub const LOCAL_DATA_DIR: &'static str = "./egress-data";

/// Directory of the policy files otherwise.
pub const SYSTEM_DATA_DIR: &'static str = "/etc/egress-data";

/// The policy directory, given the value of the local-test switch: the local
/// one when the switch is exactly `true`, else the system one.
pub fn egress_data_dir(local_test: Option<&str>) -> (r: &'static str)
    ensures
        r@ == if local_test matches Some(v) && v@ == "true"@ {
            LOCAL_DATA_DIR@
        } else {
            SYSTEM_DATA_DIR@
        },
{
    match local_test {
        Some(v) => {
            if str_eq(v, "true") {
                LOCAL_DATA_DIR
            } else {
                SYSTEM_DATA_DIR
            }
        },
        None => SYSTEM_DATA_DIR,
    }
}

} // verus!
