//! The visible rows of the host list: fuzzy filtering, relevance ranking,
//! grouping under headers (declared groups first, then groups first seen on a
//! host, then the ungrouped hosts), collapsing, and where the selection lands.

use vstd::prelude::*;
use crate::config::{Group, GroupView, Host, HostView};
use crate::fuzzy::{fuzzy_score, spec_fuzzy_i32};
use crate::text::{str_eq, str_lowercase, to_lowercase};

verus! {

/// A visible line of the host list.
#[derive(Debug)]
pub enum Row {
    /// A group header.
    Group { name: String, icon: String, collapsed: bool },
    /// A host (index into the host list) shown beneath its group.
    Host { idx: usize, icon: String },
    /// The "Console connection" action row, always at the top.
    ConsoleAction,
}

/// A row as plain values.
pub enum RowView {
    Group { name: Seq<char>, icon: Seq<char>, collapsed: bool },
    Host { idx: usize, icon: Seq<char> },
    ConsoleAction,
}

impl View for Row {
    type V = RowView;

    open spec fn view(&self) -> RowView {
        match self {
            Row::Group { name, icon, collapsed } => RowView::Group {
                name: name@,
                icon: icon@,
                collapsed: *collapsed,
            },
            Row::Host { idx, icon } => RowView::Host { idx: *idx, icon: icon@ },
            Row::ConsoleAction => RowView::ConsoleAction,
        }
    }
}

impl DeepView for Row {
    type V = RowView;

    open spec fn deep_view(&self) -> RowView {
        self@
    }
}

// ───────────────────────── relevance ─────────────────────────

/// A secondary field's score, one point below a name hit (wrapping like `i32`).
pub open spec fn dec_score(o: Option<i32>) -> Option<i32> {
    match o {
        Some(s) => Some(if s == i32::MIN { i32::MAX } else { (s - 1) as i32 }),
        None => None,
    }
}

/// The better of a running best and a new score.
pub open spec fn better(best: Option<i32>, s: Option<i32>) -> Option<i32> {
    match s {
        Some(v) => match best {
            Some(b) => Some(if b >= v { b } else { v }),
            None => Some(v),
        },
        None => best,
    }
}

/// Relevance of host `h` to the (lowercased) `filter`: the best fuzzy score over
/// its name, hostname, username and group, the last three one point lower so a
/// name hit wins a tie; `None` if nothing matches. An empty filter scores 0.
pub open spec fn spec_host_score(filter: Seq<char>, h: HostView) -> Option<i32> {
    if filter.len() == 0 {
        Some(0)
    } else {
        let s1 = spec_fuzzy_i32(filter, str_lowercase(h.name));
        let s2 = dec_score(spec_fuzzy_i32(filter, str_lowercase(h.hostname)));
        let s3 = dec_score(spec_fuzzy_i32(filter, str_lowercase(h.username)));
        let s4 = match h.group {
            Some(g) => dec_score(spec_fuzzy_i32(filter, str_lowercase(g))),
            None => None,
        };
        better(better(better(better(None, s1), s2), s3), s4)
    }
}

pub fn dec(o: Option<i32>) -> (r: Option<i32>)
    ensures
        r == dec_score(o),
{
    match o {
        Some(s) => Some(
            if s == i32::MIN {
                i32::MAX
            } else {
                s - 1
            },
        ),
        None => None,
    }
}

pub fn take_better(best: Option<i32>, s: Option<i32>) -> (r: Option<i32>)
    ensures
        r == better(best, s),
{
    match s {
        Some(v) => match best {
            Some(b) => Some(
                if b >= v {
                    b
                } else {
                    v
                },
            ),
            None => Some(v),
        },
        None => best,
    }
}

pub proof fn lemma_better_keeps(best: Option<i32>, s: Option<i32>)
    ensures
        best matches Some(b) ==> better(best, s) matches Some(t) && t >= b,
        s matches Some(v) ==> better(best, s) matches Some(t) && t >= v,
{
}

/// While filtering, a host whose name matches the filter gets at least the
/// name's score, and one whose hostname, username or group matches gets at
/// least that field's score less one: a match on any of these fields keeps
/// the host in the filtered list.
pub proof fn lemma_host_score_fields(filter: Seq<char>, h: HostView)
    requires
        filter.len() > 0,
    ensures
        spec_fuzzy_i32(filter, str_lowercase(h.name)) matches Some(s) ==> spec_host_score(filter, h) matches Some(t)
            && t >= s,
        spec_fuzzy_i32(filter, str_lowercase(h.hostname)) matches Some(s) ==> spec_host_score(filter, h) matches Some(
            t,
        ) && t >= s - 1,
        spec_fuzzy_i32(filter, str_lowercase(h.username)) matches Some(s) ==> spec_host_score(filter, h) matches Some(
            t,
        ) && t >= s - 1,
        h.group matches Some(g) ==> (spec_fuzzy_i32(filter, str_lowercase(g)) matches Some(s)
            ==> spec_host_score(filter, h) matches Some(t) && t >= s - 1),
{
    let s1 = spec_fuzzy_i32(filter, str_lowercase(h.name));
    let s2 = dec_score(spec_fuzzy_i32(filter, str_lowercase(h.hostname)));
    let s3 = dec_score(spec_fuzzy_i32(filter, str_lowercase(h.username)));
    let s4 = match h.group {
        Some(g) => dec_score(spec_fuzzy_i32(filter, str_lowercase(g))),
        None => None,
    };
    let b1 = better(None, s1);
    let b2 = better(b1, s2);
    let b3 = better(b2, s3);
    let b4 = better(b3, s4);
    lemma_better_keeps(None, s1);
    lemma_better_keeps(b1, s2);
    lemma_better_keeps(b2, s3);
    lemma_better_keeps(b3, s4);
}

/// Relevance of `h` to `filter` (see [`spec_host_score`]).
pub fn host_score(filter: &str, h: &Host) -> (r: Option<i32>)
    ensures
        r == spec_host_score(filter@, h@),
{
    if filter.unicode_len() == 0 {
        return Some(0);
    }
    let mut best: Option<i32> = None;
    let n = to_lowercase(h.name.as_str());
    best = take_better(best, fuzzy_score(filter, n.as_str()));
    let hn = to_lowercase(h.hostname.as_str());
    best = take_better(best, dec(fuzzy_score(filter, hn.as_str())));
    let u = to_lowercase(h.username.as_str());
    best = take_better(best, dec(fuzzy_score(filter, u.as_str())));
    match &h.group {
        Some(g) => {
            let gl = to_lowercase(g.as_str());
            best = take_better(best, dec(fuzzy_score(filter, gl.as_str())));
        },
        None => {
            best = take_better(best, None);
        },
    }
    best
}

/// Scores as comparable integers (`None` below every score).
pub open spec fn score_key(o: Option<i32>) -> int {
    match o {
        Some(s) => s as int,
        None => i32::MIN - 1,
    }
}

/// The hosts (indices, ascending) among the first `k` whose score is `Some`.
pub open spec fn visible_upto(scores: Seq<Option<i32>>, k: int) -> Seq<usize>
    decreases k,
{
    if k <= 0 {
        Seq::empty()
    } else if scores[k - 1] is Some {
        visible_upto(scores, k - 1).push((k - 1) as usize)
    } else {
        visible_upto(scores, k - 1)
    }
}

/// The first position at or after `k` in `ranked` scoring below `key`.
pub open spec fn insert_pos(ranked: Seq<usize>, scores: Seq<Option<i32>>, key: int, k: int) -> int
    decreases ranked.len() - k,
{
    if k >= ranked.len() || k < 0 {
        ranked.len() as int
    } else if score_key(scores[ranked[k] as int]) < key {
        k
    } else {
        insert_pos(ranked, scores, key, k + 1)
    }
}

/// The first `k` entries of `list` ranked best-first; equal scores keep their
/// order (a stable insertion sort).
pub open spec fn rank_upto(list: Seq<usize>, scores: Seq<Option<i32>>, k: int) -> Seq<usize>
    decreases k,
{
    if k <= 0 {
        Seq::empty()
    } else {
        let r = rank_upto(list, scores, k - 1);
        let x = list[k - 1];
        r.insert(insert_pos(r, scores, score_key(scores[x as int]), 0), x)
    }
}

/// `list` ranked best-first while filtering; unchanged otherwise.
pub open spec fn ranked(list: Seq<usize>, scores: Seq<Option<i32>>, filtering: bool) -> Seq<usize> {
    if filtering {
        rank_upto(list, scores, list.len() as int)
    } else {
        list
    }
}

/// The first of the first `k` entries of `vis` with the highest score.
pub open spec fn best_upto(vis: Seq<usize>, scores: Seq<Option<i32>>, k: int) -> Option<usize>
    decreases k,
{
    if k <= 0 {
        None
    } else {
        match best_upto(vis, scores, k - 1) {
            None => Some(vis[k - 1]),
            Some(b) => if score_key(scores[vis[k - 1] as int]) > score_key(scores[b as int]) {
                Some(vis[k - 1])
            } else {
                Some(b)
            },
        }
    }
}

// ───────────────────────── grouping ─────────────────────────

/// The declared group names, in order.
pub open spec fn declared_names(groups: Seq<GroupView>, k: int) -> Seq<Seq<char>>
    decreases k,
{
    if k <= 0 {
        Seq::empty()
    } else {
        declared_names(groups, k - 1).push(groups[k - 1].name)
    }
}

/// `order` extended with the groups of the first `k` visible hosts that are not
/// in it yet, in first-seen order.
pub open spec fn extend_order(order: Seq<Seq<char>>, hosts: Seq<HostView>, vis: Seq<usize>, k: int) -> Seq<Seq<char>>
    decreases k,
{
    if k <= 0 {
        order
    } else {
        let o = extend_order(order, hosts, vis, k - 1);
        match hosts[vis[k - 1] as int].group {
            Some(g) => if o.contains(g) {
                o
            } else {
                o.push(g)
            },
            None => o,
        }
    }
}

/// The group headers in display order: declared groups, then groups first seen
/// on a visible host.
pub open spec fn group_order(groups: Seq<GroupView>, hosts: Seq<HostView>, vis: Seq<usize>) -> Seq<Seq<char>> {
    extend_order(declared_names(groups, groups.len() as int), hosts, vis, vis.len() as int)
}

/// The first `k` visible hosts whose group is `g`.
pub open spec fn members_upto(hosts: Seq<HostView>, vis: Seq<usize>, g: Option<Seq<char>>, k: int) -> Seq<usize>
    decreases k,
{
    if k <= 0 {
        Seq::empty()
    } else if hosts[vis[k - 1] as int].group == g {
        members_upto(hosts, vis, g, k - 1).push(vis[k - 1])
    } else {
        members_upto(hosts, vis, g, k - 1)
    }
}

/// The icon of the first group named `name` at or after `k` (empty if none).
pub open spec fn icon_from(groups: Seq<GroupView>, name: Seq<char>, k: int) -> Seq<char>
    decreases groups.len() - k,
{
    if k < 0 || k >= groups.len() {
        Seq::empty()
    } else if groups[k].name == name {
        groups[k].icon
    } else {
        icon_from(groups, name, k + 1)
    }
}

/// Host rows for `ms`, each with `icon`.
pub open spec fn host_rows(ms: Seq<usize>, icon: Seq<char>) -> Seq<RowView> {
    Seq::new(ms.len(), |k: int| RowView::Host { idx: ms[k], icon })
}

/// The rows of one group: its header (if it has visible members), then its
/// members unless collapsed (collapse is ignored while filtering).
pub open spec fn block(
    members: Seq<usize>,
    name: Seq<char>,
    icon: Seq<char>,
    collapsed: Seq<Seq<char>>,
    filtering: bool,
) -> Seq<RowView> {
    if members.len() == 0 {
        Seq::empty()
    } else {
        let c = collapsed.contains(name);
        seq![RowView::Group { name, icon, collapsed: c }] + if !c || filtering {
            host_rows(members, icon)
        } else {
            Seq::empty()
        }
    }
}

/// Everything that decides the rows, as plain values.
pub struct ListInput {
    pub hosts: Seq<HostView>,
    pub groups: Seq<GroupView>,
    pub collapsed: Seq<Seq<char>>,
    pub scores: Seq<Option<i32>>,
    pub filtering: bool,
}

impl ListInput {
    pub open spec fn vis(self) -> Seq<usize> {
        visible_upto(self.scores, self.scores.len() as int)
    }

    /// The block of the group named `name`.
    pub open spec fn named_block(self, name: Seq<char>) -> Seq<RowView> {
        block(
            ranked(members_upto(self.hosts, self.vis(), Some(name), self.vis().len() as int), self.scores, self.filtering),
            name,
            icon_from(self.groups, name, 0),
            self.collapsed,
            self.filtering,
        )
    }

    /// The blocks of the first `k` names of `order`.
    pub open spec fn blocks(self, order: Seq<Seq<char>>, k: int) -> Seq<RowView>
        decreases k,
    {
        if k <= 0 {
            Seq::empty()
        } else {
            self.blocks(order, k - 1) + self.named_block(order[k - 1])
        }
    }

    /// The trailing block of ungrouped hosts.
    pub open spec fn ungrouped_block(self) -> Seq<RowView> {
        block(
            ranked(members_upto(self.hosts, self.vis(), None, self.vis().len() as int), self.scores, self.filtering),
            "Ungrouped"@,
            Seq::empty(),
            self.collapsed,
            self.filtering,
        )
    }

    /// Whether any grouping is in play (declared groups or a grouped host).
    pub open spec fn any_grouping(self) -> bool {
        self.groups.len() > 0 || exists|i: int| 0 <= i < self.hosts.len() && (#[trigger] self.hosts[i]).group is Some
    }

    /// The visible rows: the console action row, then either a flat ranked list
    /// (when no grouping is in play) or the group blocks and the ungrouped block.
    pub open spec fn rows(self) -> Seq<RowView> {
        if !self.any_grouping() {
            seq![RowView::ConsoleAction] + host_rows(ranked(self.vis(), self.scores, self.filtering), Seq::empty())
        } else {
            let order = group_order(self.groups, self.hosts, self.vis());
            seq![RowView::ConsoleAction] + self.blocks(order, order.len() as int) + self.ungrouped_block()
        }
    }

    /// The top-ranked host while filtering.
    pub open spec fn best(self) -> Option<usize> {
        if self.filtering {
            best_upto(self.vis(), self.scores, self.vis().len() as int)
        } else {
            None
        }
    }
}

/// The scores of all hosts against `filter`.
pub open spec fn all_scores(hosts: Seq<HostView>, filter: Seq<char>) -> Seq<Option<i32>> {
    Seq::new(hosts.len(), |i: int| spec_host_score(filter, hosts[i]))
}

/// What decides the rows of `hosts` / `groups` / `collapsed` for the lowercased
/// `filter`.
pub open spec fn list_input(hosts: Seq<HostView>, groups: Seq<GroupView>, collapsed: Seq<Seq<char>>, filter: Seq<char>) -> ListInput {
    ListInput { hosts, groups, collapsed, scores: all_scores(hosts, filter), filtering: filter.len() > 0 }
}

// ───────────────────────── executable ─────────────────────────

fn score_all(hosts: &Vec<Host>, filter: &str) -> (r: Vec<Option<i32>>)
    ensures
        r@ == all_scores(hosts.deep_view(), filter@),
{
    let mut r: Vec<Option<i32>> = Vec::new();
    let mut i: usize = 0;
    while i < hosts.len()
        invariant
            0 <= i <= hosts@.len(),
            r@.len() == i,
            forall|k: int| 0 <= k < i ==> r@[k] == spec_host_score(filter@, #[trigger] hosts@[k]@),
        decreases hosts@.len() - i,
    {
        r.push(host_score(filter, &hosts[i]));
        i = i + 1;
    }
    assert(r@ =~= all_scores(hosts.deep_view(), filter@));
    r
}

pub fn visible(scores: &Vec<Option<i32>>) -> (r: Vec<usize>)
    ensures
        r@ == visible_upto(scores@, scores@.len() as int),
        forall|k: int| 0 <= k < r@.len() ==> #[trigger] r@[k] < scores@.len(),
{
    let mut r: Vec<usize> = Vec::new();
    let mut i: usize = 0;
    while i < scores.len()
        invariant
            0 <= i <= scores@.len(),
            r@ == visible_upto(scores@, i as int),
            forall|k: int| 0 <= k < r@.len() ==> #[trigger] r@[k] < i,
        decreases scores@.len() - i,
    {
        if scores[i].is_some() {
            r.push(i);
        }
        i = i + 1;
    }
    r
}

fn key_of(o: Option<i32>) -> (r: i64)
    ensures
        r == score_key(o),
{
    match o {
        Some(s) => s as i64,
        None => i32::MIN as i64 - 1,
    }
}

/// Insert `x` into `r` before the first entry that scores below it.
fn insert_ranked(r: &mut Vec<usize>, x: usize, scores: &Vec<Option<i32>>)
    requires
        x < scores@.len(),
        forall|k: int| 0 <= k < old(r)@.len() ==> #[trigger] old(r)@[k] < scores@.len(),
    ensures
        final(r)@ == old(r)@.insert(insert_pos(old(r)@, scores@, score_key(scores@[x as int]), 0), x),
        forall|k: int| 0 <= k < final(r)@.len() ==> #[trigger] final(r)@[k] < scores@.len(),
{
    let key = key_of(scores[x]);
    let mut k: usize = 0;
    while k < r.len() && key_of(scores[r[k]]) >= key
        invariant
            0 <= k <= r@.len(),
            r@ == old(r)@,
            forall|j: int| 0 <= j < r@.len() ==> #[trigger] r@[j] < scores@.len(),
            insert_pos(r@, scores@, key as int, 0) == insert_pos(r@, scores@, key as int, k as int),
        decreases r@.len() - k,
    {
        k = k + 1;
    }
    let ghost before = r@;
    r.insert(k, x);
    proof {
        assert forall|j: int| 0 <= j < r@.len() implies #[trigger] r@[j] < scores@.len() by {
            if j < k {
                assert(r@[j] == before[j]);
            } else if j > k {
                assert(r@[j] == before[j - 1]);
            }
        }
    }
}

pub fn rank(list: &Vec<usize>, scores: &Vec<Option<i32>>, filtering: bool) -> (r: Vec<usize>)
    requires
        forall|k: int| 0 <= k < list@.len() ==> #[trigger] list@[k] < scores@.len(),
    ensures
        r@ == ranked(list@, scores@, filtering),
        forall|k: int| 0 <= k < r@.len() ==> #[trigger] r@[k] < scores@.len(),
{
    let mut r: Vec<usize> = Vec::new();
    if !filtering {
        let mut i: usize = 0;
        while i < list.len()
            invariant
                0 <= i <= list@.len(),
                r@ == list@.take(i as int),
            decreases list@.len() - i,
        {
            r.push(list[i]);
            i = i + 1;
            assert(r@ =~= list@.take(i as int));
        }
        assert(list@.take(list@.len() as int) =~= list@);
        return r;
    }
    let mut i: usize = 0;
    while i < list.len()
        invariant
            0 <= i <= list@.len(),
            r@ == rank_upto(list@, scores@, i as int),
            forall|k: int| 0 <= k < list@.len() ==> #[trigger] list@[k] < scores@.len(),
            forall|k: int| 0 <= k < r@.len() ==> #[trigger] r@[k] < scores@.len(),
        decreases list@.len() - i,
    {
        insert_ranked(&mut r, list[i], scores);
        i = i + 1;
    }
    r
}

fn best_host(vis: &Vec<usize>, scores: &Vec<Option<i32>>) -> (r: Option<usize>)
    requires
        forall|k: int| 0 <= k < vis@.len() ==> #[trigger] vis@[k] < scores@.len(),
    ensures
        r == best_upto(vis@, scores@, vis@.len() as int),
{
    let mut best: Option<usize> = None;
    let mut i: usize = 0;
    while i < vis.len()
        invariant
            0 <= i <= vis@.len(),
            best == best_upto(vis@, scores@, i as int),
            forall|k: int| 0 <= k < vis@.len() ==> #[trigger] vis@[k] < scores@.len(),
            best matches Some(b) ==> b < scores@.len(),
        decreases vis@.len() - i,
    {
        let x = vis[i];
        best = match best {
            None => Some(x),
            Some(b) => if key_of(scores[x]) > key_of(scores[b]) {
                Some(x)
            } else {
                Some(b)
            },
        };
        i = i + 1;
    }
    best
}

/// Whether `names` contains `name`.
fn contains_name(names: &Vec<String>, name: &str) -> (r: bool)
    ensures
        r == names.deep_view().contains(name@),
{
    let ghost nv = names.deep_view();
    let mut i: usize = 0;
    while i < names.len()
        invariant
            0 <= i <= names@.len(),
            nv == names.deep_view(),
            forall|k: int| 0 <= k < i ==> nv[k] != name@,
        decreases names@.len() - i,
    {
        if str_eq(names[i].as_str(), name) {
            proof {
                assert(nv[i as int] == name@);
            }
            return true;
        }
        i = i + 1;
    }
    false
}

fn group_order_exec(groups: &Vec<Group>, hosts: &Vec<Host>, vis: &Vec<usize>) -> (r: Vec<String>)
    requires
        forall|k: int| 0 <= k < vis@.len() ==> #[trigger] vis@[k] < hosts@.len(),
    ensures
        r.deep_view() == group_order(groups.deep_view(), hosts.deep_view(), vis@),
{
    let ghost gv = groups.deep_view();
    let mut order: Vec<String> = Vec::new();
    let mut i: usize = 0;
    while i < groups.len()
        invariant
            0 <= i <= groups@.len(),
            gv == groups.deep_view(),
            order.deep_view() == declared_names(gv, i as int),
        decreases groups@.len() - i,
    {
        order.push(groups[i].name.clone());
        i = i + 1;
        assert(order.deep_view() =~= declared_names(gv, i as int));
    }
    let ghost decl = order.deep_view();
    let ghost hv = hosts.deep_view();
    let mut j: usize = 0;
    while j < vis.len()
        invariant
            0 <= j <= vis@.len(),
            hv == hosts.deep_view(),
            forall|k: int| 0 <= k < vis@.len() ==> #[trigger] vis@[k] < hosts@.len(),
            order.deep_view() == extend_order(decl, hv, vis@, j as int),
        decreases vis@.len() - j,
    {
        let h = &hosts[vis[j]];
        match &h.group {
            Some(g) => {
                if !contains_name(&order, g.as_str()) {
                    order.push(g.clone());
                    assert(order.deep_view() =~= extend_order(decl, hv, vis@, j as int).push(g@));
                }
            },
            None => {},
        }
        j = j + 1;
    }
    order
}

fn members(hosts: &Vec<Host>, vis: &Vec<usize>, g: Option<&str>) -> (r: Vec<usize>)
    requires
        forall|k: int| 0 <= k < vis@.len() ==> #[trigger] vis@[k] < hosts@.len(),
    ensures
        r@ == members_upto(
            hosts.deep_view(),
            vis@,
            match g {
                Some(s) => Some(s@),
                None => None,
            },
            vis@.len() as int,
        ),
        forall|k: int| 0 <= k < r@.len() ==> #[trigger] r@[k] < hosts@.len(),
{
    let ghost gs: Option<Seq<char>> = match g {
        Some(s) => Some(s@),
        None => None,
    };
    let ghost hv = hosts.deep_view();
    let mut r: Vec<usize> = Vec::new();
    let mut i: usize = 0;
    while i < vis.len()
        invariant
            0 <= i <= vis@.len(),
            hv == hosts.deep_view(),
            forall|k: int| 0 <= k < vis@.len() ==> #[trigger] vis@[k] < hosts@.len(),
            r@ == members_upto(hv, vis@, gs, i as int),
            forall|k: int| 0 <= k < r@.len() ==> #[trigger] r@[k] < hosts@.len(),
            gs == match g {
                Some(s) => Some(s@),
                None => None::<Seq<char>>,
            },
        decreases vis@.len() - i,
    {
        let x = vis[i];
        let same = match (&hosts[x].group, g) {
            (Some(hg), Some(s)) => str_eq(hg.as_str(), s),
            (None, None) => true,
            _ => false,
        };
        proof {
            assert(hv[x as int].group == hosts@[x as int].group.deep_view());
        }
        if same {
            r.push(x);
        }
        i = i + 1;
    }
    r
}

fn group_icon(groups: &Vec<Group>, name: &str) -> (r: String)
    ensures
        r@ == icon_from(groups.deep_view(), name@, 0),
{
    let ghost gv = groups.deep_view();
    let mut i: usize = 0;
    while i < groups.len()
        invariant
            0 <= i <= groups@.len(),
            gv == groups.deep_view(),
            icon_from(gv, name@, 0) == icon_from(gv, name@, i as int),
        decreases groups@.len() - i,
    {
        if str_eq(groups[i].name.as_str(), name) {
            return groups[i].icon.clone();
        }
        i = i + 1;
    }
    String::new()
}

fn push_host_rows(rows: &mut Vec<Row>, ms: &Vec<usize>, icon: &String)
    ensures
        final(rows).deep_view() == old(rows).deep_view() + host_rows(ms@, icon@),
{
    let ghost start = rows.deep_view();
    let ghost n0 = start.len();
    let mut i: usize = 0;
    while i < ms.len()
        invariant
            0 <= i <= ms@.len(),
            rows@.len() == n0 + i,
            forall|k: int| 0 <= k < n0 ==> #[trigger] rows@[k].deep_view() == start[k],
            forall|k: int|
                0 <= k < i ==> #[trigger] rows@[n0 + k].deep_view() == (RowView::Host {
                    idx: ms@[k],
                    icon: icon@,
                }),
        decreases ms@.len() - i,
    {
        let row = Row::Host { idx: ms[i], icon: icon.clone() };
        assert(row.deep_view() == (RowView::Host { idx: ms@[i as int], icon: icon@ }));
        rows.push(row);
        proof {
            assert(rows@[n0 + i].deep_view() == (RowView::Host { idx: ms@[i as int], icon: icon@ }));
        }
        i = i + 1;
    }
    proof {
        let target = start + host_rows(ms@, icon@);
        assert forall|k: int| 0 <= k < rows.deep_view().len() implies rows.deep_view()[k] == target[k] by {
            if k < n0 {
                assert(rows@[k].deep_view() == start[k]);
            } else {
                assert(rows@[n0 + (k - n0)].deep_view() == (RowView::Host { idx: ms@[k - n0], icon: icon@ }));
            }
        }
        assert(rows.deep_view() =~= target);
    }
}

fn push_block(
    rows: &mut Vec<Row>,
    ms: &Vec<usize>,
    name: String,
    icon: String,
    collapsed: &Vec<String>,
    filtering: bool,
)
    ensures
        final(rows).deep_view() == old(rows).deep_view() + block(ms@, name@, icon@, collapsed.deep_view(), filtering),
{
    if ms.len() == 0 {
        assert(rows.deep_view() =~= rows.deep_view() + Seq::<RowView>::empty());
        return;
    }
    let c = contains_name(collapsed, name.as_str());
    let ghost start = rows.deep_view();
    let ghost header = RowView::Group { name: name@, icon: icon@, collapsed: c };
    rows.push(Row::Group { name, icon: icon.clone(), collapsed: c });
    assert(rows.deep_view() =~= start + seq![header]);
    if !c || filtering {
        push_host_rows(rows, ms, &icon);
        assert(rows.deep_view() =~= start + (seq![header] + host_rows(ms@, icon@)));
    } else {
        assert(rows.deep_view() =~= start + (seq![header] + Seq::<RowView>::empty()));
    }
}

/// Build the visible rows for the lowercased `filter` (see [`ListInput::rows`])
/// and find the top-ranked host while filtering (see [`ListInput::best`]).
pub fn build_rows(hosts: &Vec<Host>, groups: &Vec<Group>, collapsed: &Vec<String>, filter: &str) -> (r: (
    Vec<Row>,
    Option<usize>,
))
    ensures
        r.0.deep_view() == list_input(hosts.deep_view(), groups.deep_view(), collapsed.deep_view(), filter@).rows(),
        r.1 == list_input(hosts.deep_view(), groups.deep_view(), collapsed.deep_view(), filter@).best(),
{
    let ghost inp = list_input(hosts.deep_view(), groups.deep_view(), collapsed.deep_view(), filter@);
    let filtering = filter.unicode_len() > 0;
    let scores = score_all(hosts, filter);
    let vis = visible(&scores);
    let best = if filtering {
        best_host(&vis, &scores)
    } else {
        None
    };
    let mut rows: Vec<Row> = Vec::new();
    rows.push(Row::ConsoleAction);
    assert(rows.deep_view() =~= seq![RowView::ConsoleAction]);
    let mut any_grouping = groups.len() > 0;
    let mut i: usize = 0;
    while i < hosts.len()
        invariant
            0 <= i <= hosts@.len(),
            any_grouping == (groups@.len() > 0 || exists|k: int| 0 <= k < i && (#[trigger] hosts@[k]).group is Some),
        decreases hosts@.len() - i,
    {
        if hosts[i].group.is_some() {
            any_grouping = true;
        }
        i = i + 1;
    }
    proof {
        if inp.any_grouping() && groups@.len() == 0 {
            let k = choose|k: int| 0 <= k < inp.hosts.len() && (#[trigger] inp.hosts[k]).group is Some;
            assert(inp.hosts[k] == hosts@[k].deep_view());
            assert(hosts@[k].group is Some);
        }
        if any_grouping && groups@.len() == 0 {
            let k = choose|k: int| 0 <= k < hosts@.len() && (#[trigger] hosts@[k]).group is Some;
            assert(inp.hosts[k] == hosts@[k].deep_view());
            assert(inp.hosts[k].group is Some);
        }
        assert(any_grouping == inp.any_grouping());
    }
    if !any_grouping {
        let order = rank(&vis, &scores, filtering);
        push_host_rows(&mut rows, &order, &String::new());
        return (rows, best);
    }
    let order = group_order_exec(groups, hosts, &vis);
    let ghost ov = order.deep_view();
    let mut k: usize = 0;
    while k < order.len()
        invariant
            0 <= k <= order@.len(),
            ov == order.deep_view(),
            inp == list_input(hosts.deep_view(), groups.deep_view(), collapsed.deep_view(), filter@),
            scores@ == inp.scores,
            vis@ == inp.vis(),
            filtering == inp.filtering,
            forall|j: int| 0 <= j < vis@.len() ==> #[trigger] vis@[j] < hosts@.len(),
            forall|j: int| 0 <= j < vis@.len() ==> #[trigger] vis@[j] < scores@.len(),
            rows.deep_view() == seq![RowView::ConsoleAction] + inp.blocks(ov, k as int),
        decreases order@.len() - k,
    {
        let name = order[k].as_str();
        let ms = members(hosts, &vis, Some(name));
        let ranked_ms = rank(&ms, &scores, filtering);
        let icon = group_icon(groups, name);
        let ghost before = rows.deep_view();
        push_block(&mut rows, &ranked_ms, order[k].clone(), icon, collapsed, filtering);
        proof {
            assert(ov[k as int] == name@);
            assert(rows.deep_view() =~= seq![RowView::ConsoleAction] + inp.blocks(ov, k + 1));
        }
        k = k + 1;
    }
    let ms = members(hosts, &vis, None);
    let ranked_ms = rank(&ms, &scores, filtering);
    proof {
        reveal_strlit("Ungrouped");
    }
    push_block(&mut rows, &ranked_ms, String::from_str("Ungrouped"), String::new(), collapsed, filtering);
    (rows, best)
}

/// Where the selection lands after the rows are rebuilt: on `best`'s row when
/// it is shown, otherwise on the first host row at or after the (clamped)
/// current selection, or the last row when there is none.
pub open spec fn spec_select(rows: Seq<RowView>, selected: int, best: Option<usize>) -> int {
    let n = rows.len() as int;
    let s0 = if selected >= n {
        if n > 0 {
            n - 1
        } else {
            0
        }
    } else {
        selected
    };
    let p = first_host_from(rows, s0);
    let fallback = if p >= n {
        if n > 0 {
            n - 1
        } else {
            0
        }
    } else {
        p
    };
    match best {
        Some(b) => if first_host_row(rows, b, 0) < n {
            first_host_row(rows, b, 0)
        } else {
            fallback
        },
        None => fallback,
    }
}

/// The first row at or after `k` showing host `b`.
pub open spec fn first_host_row(rows: Seq<RowView>, b: usize, k: int) -> int
    decreases rows.len() - k,
{
    if k < 0 || k >= rows.len() {
        rows.len() as int
    } else if rows[k] matches RowView::Host { idx, .. } && idx == b {
        k
    } else {
        first_host_row(rows, b, k + 1)
    }
}

/// The first host row at or after `k` (the row count when there is none).
pub open spec fn first_host_from(rows: Seq<RowView>, k: int) -> int
    decreases rows.len() - k,
{
    if k < 0 || k >= rows.len() {
        rows.len() as int
    } else if rows[k] is Host {
        k
    } else {
        first_host_from(rows, k + 1)
    }
}

fn is_host_row(r: &Row) -> (b: bool)
    ensures
        b == (r@ is Host),
{
    match r {
        Row::Host { .. } => true,
        _ => false,
    }
}

/// Where the selection lands after the rows are rebuilt (see [`spec_select`]).
pub fn select_best_or_first_host(rows: &Vec<Row>, selected: usize, best: Option<usize>) -> (r: usize)
    ensures
        r == spec_select(rows.deep_view(), selected as int, best),
{
    let ghost rv = rows.deep_view();
    let n = rows.len();
    let mut sel = selected;
    if sel >= n {
        sel = if n > 0 {
            n - 1
        } else {
            0
        };
    }
    if let Some(b) = best {
        let mut p: usize = 0;
        while p < n
            invariant
                0 <= p <= n,
                n == rv.len(),
                rv == rows.deep_view(),
                first_host_row(rv, b, 0) == first_host_row(rv, b, p as int),
                best == Some(b),
            decreases n - p,
        {
            let hit = match &rows[p] {
                Row::Host { idx, .. } => *idx == b,
                _ => false,
            };
            proof {
                assert(rv[p as int] == rows@[p as int].deep_view());
            }
            if hit {
                proof {
                    assert(rv[p as int] is Host);
                    assert(rv[p as int]->Host_idx == b);
                    assert(first_host_row(rv, b, p as int) == p as int);
                }
                return p;
            }
            p = p + 1;
        }
    }
    let ghost s0 = sel;
    while sel < n && !is_host_row(&rows[sel])
        invariant
            s0 <= sel <= n,
            n == rv.len(),
            rv == rows.deep_view(),
            first_host_from(rv, s0 as int) == first_host_from(rv, sel as int),
        decreases n - sel,
    {
        proof {
            assert(rv[sel as int] == rows@[sel as int].deep_view());
        }
        sel = sel + 1;
    }
    proof {
        if sel < n {
            assert(rv[sel as int] == rows@[sel as int].deep_view());
        }
    }
    if sel >= n {
        sel = if n > 0 {
            n - 1
        } else {
            0
        };
    }
    sel
}

// ───────────────────────── row facts ─────────────────────────

/// Every entry of `s` is below `b`.
pub open spec fn all_below(s: Seq<usize>, b: int) -> bool {
    forall|i: int| 0 <= i < s.len() ==> #[trigger] s[i] < b
}

/// Every host row of `rows` shows a host index below `b`.
pub open spec fn rows_below(rows: Seq<RowView>, b: int) -> bool {
    forall|k: int| 0 <= k < rows.len() ==> (#[trigger] rows[k] matches RowView::Host { idx, .. } ==> idx < b)
}

proof fn lemma_visible_below(scores: Seq<Option<i32>>, k: int)
    requires
        0 <= k <= scores.len(),
    ensures
        all_below(visible_upto(scores, k), scores.len() as int),
    decreases k,
{
    if k > 0 {
        lemma_visible_below(scores, k - 1);
    }
}

proof fn lemma_members_below(hosts: Seq<HostView>, vis: Seq<usize>, g: Option<Seq<char>>, k: int, b: int)
    requires
        0 <= k <= vis.len(),
        all_below(vis, b),
    ensures
        all_below(members_upto(hosts, vis, g, k), b),
    decreases k,
{
    if k > 0 {
        lemma_members_below(hosts, vis, g, k - 1, b);
    }
}

proof fn lemma_insert_pos_range(r: Seq<usize>, scores: Seq<Option<i32>>, key: int, k: int)
    requires
        0 <= k <= r.len(),
    ensures
        k <= insert_pos(r, scores, key, k) <= r.len(),
    decreases r.len() - k,
{
    if k < r.len() && score_key(scores[r[k] as int]) >= key {
        lemma_insert_pos_range(r, scores, key, k + 1);
    }
}

proof fn lemma_rank_below(list: Seq<usize>, scores: Seq<Option<i32>>, k: int, b: int)
    requires
        0 <= k <= list.len(),
        all_below(list, b),
    ensures
        all_below(rank_upto(list, scores, k), b),
        rank_upto(list, scores, k).len() == k,
    decreases k,
{
    if k > 0 {
        lemma_rank_below(list, scores, k - 1, b);
        let r = rank_upto(list, scores, k - 1);
        let x = list[k - 1];
        let p = insert_pos(r, scores, score_key(scores[x as int]), 0);
        lemma_insert_pos_range(r, scores, score_key(scores[x as int]), 0);
        let r2 = r.insert(p, x);
        assert forall|i: int| 0 <= i < r2.len() implies #[trigger] r2[i] < b by {
            if i < p {
                assert(r2[i] == r[i]);
            } else if i > p {
                assert(r2[i] == r[i - 1]);
            }
        }
    }
}

proof fn lemma_block_below(members: Seq<usize>, name: Seq<char>, icon: Seq<char>, collapsed: Seq<Seq<char>>, filtering: bool, b: int)
    requires
        all_below(members, b),
    ensures
        rows_below(block(members, name, icon, collapsed, filtering), b),
{
    let bl = block(members, name, icon, collapsed, filtering);
    assert forall|k: int| 0 <= k < bl.len() implies (#[trigger] bl[k] matches RowView::Host { idx, .. } ==> idx < b) by {
        if members.len() > 0 && k >= 1 {
            let c = collapsed.contains(name);
            if !c || filtering {
                assert(bl[k] == host_rows(members, icon)[k - 1]);
            }
        }
    }
}

proof fn lemma_concat_below(a: Seq<RowView>, c: Seq<RowView>, b: int)
    requires
        rows_below(a, b),
        rows_below(c, b),
    ensures
        rows_below(a + c, b),
{
    assert forall|k: int| 0 <= k < (a + c).len() implies (#[trigger] (a + c)[k] matches RowView::Host { idx, .. } ==> idx < b) by {
        if k < a.len() {
            assert((a + c)[k] == a[k]);
        } else {
            assert((a + c)[k] == c[k - a.len()]);
        }
    }
}

impl ListInput {
    proof fn lemma_blocks_below(self, order: Seq<Seq<char>>, k: int)
        requires
            0 <= k <= order.len(),
            self.scores.len() == self.hosts.len(),
        ensures
            rows_below(self.blocks(order, k), self.hosts.len() as int),
        decreases k,
    {
        if k > 0 {
            self.lemma_blocks_below(order, k - 1);
            let name = order[k - 1];
            let b = self.hosts.len() as int;
            lemma_visible_below(self.scores, self.scores.len() as int);
            let ms = members_upto(self.hosts, self.vis(), Some(name), self.vis().len() as int);
            lemma_members_below(self.hosts, self.vis(), Some(name), self.vis().len() as int, b);
            lemma_rank_below(ms, self.scores, ms.len() as int, b);
            lemma_block_below(ranked(ms, self.scores, self.filtering), name, icon_from(self.groups, name, 0), self.collapsed, self.filtering, b);
            lemma_concat_below(self.blocks(order, k - 1), self.named_block(name), b);
        }
    }

    /// Every host row of the list shows one of the hosts.
    pub proof fn lemma_rows_below(self)
        requires
            self.scores.len() == self.hosts.len(),
        ensures
            rows_below(self.rows(), self.hosts.len() as int),
            self.rows().len() >= 1,
            self.rows()[0] is ConsoleAction,
    {
        let b = self.hosts.len() as int;
        lemma_visible_below(self.scores, self.scores.len() as int);
        let head = seq![RowView::ConsoleAction];
        assert(rows_below(head, b));
        if !self.any_grouping() {
            lemma_rank_below(self.vis(), self.scores, self.vis().len() as int, b);
            let ms = ranked(self.vis(), self.scores, self.filtering);
            assert(rows_below(host_rows(ms, Seq::empty()), b));
            lemma_concat_below(head, host_rows(ms, Seq::empty()), b);
        } else {
            let order = group_order(self.groups, self.hosts, self.vis());
            self.lemma_blocks_below(order, order.len() as int);
            let ms = members_upto(self.hosts, self.vis(), None, self.vis().len() as int);
            lemma_members_below(self.hosts, self.vis(), None, self.vis().len() as int, b);
            lemma_rank_below(ms, self.scores, ms.len() as int, b);
            lemma_block_below(ranked(ms, self.scores, self.filtering), "Ungrouped"@, Seq::empty(), self.collapsed, self.filtering, b);
            lemma_concat_below(head, self.blocks(order, order.len() as int), b);
            lemma_concat_below(head + self.blocks(order, order.len() as int), self.ungrouped_block(), b);
        }
    }
}

// ───────────────────────── what the filter shows ─────────────────────────

/// The host a row shows, if it is a host row.
pub open spec fn row_idx(r: RowView) -> Option<usize> {
    match r {
        RowView::Host { idx, .. } => Some(idx),
        _ => None,
    }
}

/// Some row of `rows` shows host `h`.
pub open spec fn shows(rows: Seq<RowView>, h: usize) -> bool {
    exists|k: int| 0 <= k < rows.len() && #[trigger] row_idx(rows[k]) == Some(h)
}

/// Every host row of `rows` shows a host whose score is `Some`.
pub open spec fn rows_match(rows: Seq<RowView>, scores: Seq<Option<i32>>) -> bool {
    forall|k: int| 0 <= k < rows.len() ==> (#[trigger] row_idx(rows[k]) matches Some(i) ==> i < scores.len()
        && scores[i as int] is Some)
}

/// Every entry of `s` is a host whose score is `Some`.
pub open spec fn all_match(s: Seq<usize>, scores: Seq<Option<i32>>) -> bool {
    forall|j: int| 0 <= j < s.len() ==> #[trigger] s[j] < scores.len() && scores[s[j] as int] is Some
}

/// The visible hosts are the ones that score, and each that scores is one.
pub proof fn lemma_visible_upto(scores: Seq<Option<i32>>, k: int)
    requires
        0 <= k <= scores.len(),
        scores.len() <= usize::MAX,
    ensures
        all_match(visible_upto(scores, k), scores),
        forall|i: int| 0 <= i < k && scores[i] is Some ==> visible_upto(scores, k).contains(i as usize),
    decreases k,
{
    if k > 0 {
        lemma_visible_upto(scores, k - 1);
        let v = visible_upto(scores, k - 1);
        if scores[k - 1] is Some {
            assert(v.push((k - 1) as usize)[v.len() as int] == (k - 1) as usize);
            assert forall|i: int| 0 <= i < k && scores[i] is Some implies visible_upto(scores, k).contains(i as usize) by {
                if i < k - 1 {
                    let j = choose|j: int| 0 <= j < v.len() && v[j] == i as usize;
                    assert(v.push((k - 1) as usize)[j] == i as usize);
                }
            }
        }
    }
}

proof fn lemma_members_upto(hosts: Seq<HostView>, vis: Seq<usize>, g: Option<Seq<char>>, k: int, scores: Seq<Option<i32>>)
    requires
        0 <= k <= vis.len(),
        all_match(vis, scores),
    ensures
        all_match(members_upto(hosts, vis, g, k), scores),
        forall|j: int| 0 <= j < k && hosts[vis[j] as int].group == g ==> members_upto(hosts, vis, g, k).contains(
            #[trigger] vis[j],
        ),
    decreases k,
{
    if k > 0 {
        lemma_members_upto(hosts, vis, g, k - 1, scores);
        let m = members_upto(hosts, vis, g, k - 1);
        if hosts[vis[k - 1] as int].group == g {
            let m2 = m.push(vis[k - 1]);
            assert(m2[m.len() as int] == vis[k - 1]);
            assert forall|j: int| 0 <= j < k && hosts[vis[j] as int].group == g implies m2.contains(#[trigger] vis[j]) by {
                if j < k - 1 {
                    let q = choose|q: int| 0 <= q < m.len() && m[q] == vis[j];
                    assert(m2[q] == vis[j]);
                }
            }
        }
    }
}

proof fn lemma_rank_upto(list: Seq<usize>, scores: Seq<Option<i32>>, k: int)
    requires
        0 <= k <= list.len(),
    ensures
        rank_upto(list, scores, k).len() == k,
        forall|x: usize| rank_upto(list, scores, k).contains(x) <==> list.take(k).contains(x),
    decreases k,
{
    if k > 0 {
        lemma_rank_upto(list, scores, k - 1);
        let r = rank_upto(list, scores, k - 1);
        let x = list[k - 1];
        let p = insert_pos(r, scores, score_key(scores[x as int]), 0);
        lemma_insert_pos_range(r, scores, score_key(scores[x as int]), 0);
        let r2 = r.insert(p, x);
        assert(list.take(k) =~= list.take(k - 1).push(x));
        assert forall|y: usize| r2.contains(y) <==> list.take(k).contains(y) by {
            if r2.contains(y) {
                let i = choose|i: int| 0 <= i < r2.len() && r2[i] == y;
                if i != p {
                    if i < p {
                        assert(r[i] == y);
                    } else {
                        assert(r[i - 1] == y);
                    }
                    assert(r.contains(y));
                    let t1 = list.take(k - 1);
                    assert(t1.contains(y));
                    let q = choose|q: int| 0 <= q < t1.len() && t1[q] == y;
                    assert(list.take(k)[q] == y);
                } else {
                    assert(list.take(k)[k - 1] == y);
                }
            }
            if list.take(k).contains(y) {
                let i = choose|i: int| 0 <= i < list.take(k).len() && list.take(k)[i] == y;
                if i < k - 1 {
                    assert(list.take(k - 1)[i] == y);
                    assert(list.take(k - 1).contains(y));
                    assert(r.contains(y));
                    let q = choose|q: int| 0 <= q < r.len() && r[q] == y;
                    if q < p {
                        assert(r2[q] == y);
                    } else {
                        assert(r2[q + 1] == y);
                    }
                } else {
                    assert(r2[p] == y);
                }
            }
        }
    }
}

/// Ranking keeps exactly the entries of the list.
pub proof fn lemma_ranked(list: Seq<usize>, scores: Seq<Option<i32>>, filtering: bool)
    ensures
        forall|x: usize| ranked(list, scores, filtering).contains(x) <==> list.contains(x),
        all_match(list, scores) ==> all_match(ranked(list, scores, filtering), scores),
{
    lemma_rank_upto(list, scores, list.len() as int);
    assert(list.take(list.len() as int) =~= list);
    let r = ranked(list, scores, filtering);
    if all_match(list, scores) {
        assert forall|j: int| 0 <= j < r.len() implies #[trigger] r[j] < scores.len() && scores[r[j] as int] is Some by {
            assert(r.contains(r[j]));
            let q = choose|q: int| 0 <= q < list.len() && list[q] == r[j];
        }
    }
}

proof fn lemma_block_rows(members: Seq<usize>, name: Seq<char>, icon: Seq<char>, collapsed: Seq<Seq<char>>, filtering: bool, scores: Seq<Option<i32>>)
    ensures
        all_match(members, scores) ==> rows_match(block(members, name, icon, collapsed, filtering), scores),
        (filtering || !collapsed.contains(name)) ==> forall|x: usize| members.contains(x) ==> shows(
            block(members, name, icon, collapsed, filtering),
            x,
        ),
{
    let bl = block(members, name, icon, collapsed, filtering);
    if all_match(members, scores) {
        assert forall|k: int| 0 <= k < bl.len() implies (#[trigger] row_idx(bl[k]) matches Some(i) ==> i < scores.len()
            && scores[i as int] is Some) by {
            if members.len() > 0 && k >= 1 {
                let c = collapsed.contains(name);
                if !c || filtering {
                    assert(bl[k] == host_rows(members, icon)[k - 1]);
                }
            }
        }
    }
    if filtering || !collapsed.contains(name) {
        assert forall|x: usize| members.contains(x) implies shows(bl, x) by {
            let j = choose|j: int| 0 <= j < members.len() && members[j] == x;
            assert(bl[j + 1] == host_rows(members, icon)[j]);
            assert(row_idx(bl[j + 1]) == Some(x));
        }
    }
}

proof fn lemma_concat_rows(a: Seq<RowView>, c: Seq<RowView>, scores: Seq<Option<i32>>)
    ensures
        rows_match(a, scores) && rows_match(c, scores) ==> rows_match(a + c, scores),
        forall|x: usize| shows(a, x) ==> shows(a + c, x),
        forall|x: usize| shows(c, x) ==> shows(a + c, x),
{
    if rows_match(a, scores) && rows_match(c, scores) {
        assert forall|k: int| 0 <= k < (a + c).len() implies (#[trigger] row_idx((a + c)[k]) matches Some(i) ==> i
            < scores.len() && scores[i as int] is Some) by {
            if k < a.len() {
                assert((a + c)[k] == a[k]);
            } else {
                assert((a + c)[k] == c[k - a.len()]);
            }
        }
    }
    assert forall|x: usize| shows(a, x) implies shows(a + c, x) by {
        let k = choose|k: int| 0 <= k < a.len() && #[trigger] row_idx(a[k]) == Some(x);
        assert((a + c)[k] == a[k]);
    }
    assert forall|x: usize| shows(c, x) implies shows(a + c, x) by {
        let k = choose|k: int| 0 <= k < c.len() && #[trigger] row_idx(c[k]) == Some(x);
        assert((a + c)[k + a.len()] == c[k]);
    }
}

proof fn lemma_extend_order(order: Seq<Seq<char>>, hosts: Seq<HostView>, vis: Seq<usize>, k: int)
    requires
        0 <= k <= vis.len(),
    ensures
        forall|j: int| 0 <= j < k ==> (hosts[#[trigger] vis[j] as int].group matches Some(g) ==> extend_order(
            order,
            hosts,
            vis,
            k,
        ).contains(g)),
    decreases k,
{
    if k > 0 {
        lemma_extend_order(order, hosts, vis, k - 1);
        let o = extend_order(order, hosts, vis, k - 1);
        match hosts[vis[k - 1] as int].group {
            Some(g) => {
                if !o.contains(g) {
                    assert(o.push(g)[o.len() as int] == g);
                    assert forall|j: int| 0 <= j < k implies (hosts[#[trigger] vis[j] as int].group matches Some(h)
                        ==> o.push(g).contains(h)) by {
                        if j < k - 1 {
                            if let Some(h) = hosts[vis[j] as int].group {
                                let q = choose|q: int| 0 <= q < o.len() && o[q] == h;
                                assert(o.push(g)[q] == h);
                            }
                        }
                    }
                }
            },
            None => {},
        }
    }
}

impl ListInput {
    proof fn lemma_named_block(self, name: Seq<char>)
        requires
            self.scores.len() == self.hosts.len(),
            self.hosts.len() <= usize::MAX,
        ensures
            rows_match(self.named_block(name), self.scores),
            self.filtering ==> forall|h: usize| #![trigger self.hosts[h as int].group] (h < self.hosts.len()
                && self.scores[h as int] is Some && self.hosts[h as int].group == Some(name)) ==> shows(
                self.named_block(name),
                h,
            ),
    {
        let vis = self.vis();
        lemma_visible_upto(self.scores, self.scores.len() as int);
        lemma_members_upto(self.hosts, vis, Some(name), vis.len() as int, self.scores);
        let ms = members_upto(self.hosts, vis, Some(name), vis.len() as int);
        lemma_ranked(ms, self.scores, self.filtering);
        let rk = ranked(ms, self.scores, self.filtering);
        lemma_block_rows(rk, name, icon_from(self.groups, name, 0), self.collapsed, self.filtering, self.scores);
        if self.filtering {
            assert forall|h: usize| #![trigger self.hosts[h as int].group] (h < self.hosts.len() && self.scores[h as int] is Some
                && self.hosts[h as int].group == Some(name)) implies shows(self.named_block(name), h) by {
                assert(vis.contains(h));
                let j = choose|j: int| 0 <= j < vis.len() && vis[j] == h;
                assert(ms.contains(vis[j]));
                assert(rk.contains(h));
            }
        }
    }

    proof fn lemma_blocks(self, order: Seq<Seq<char>>, k: int)
        requires
            0 <= k <= order.len(),
            self.scores.len() == self.hosts.len(),
            self.hosts.len() <= usize::MAX,
        ensures
            rows_match(self.blocks(order, k), self.scores),
            self.filtering ==> forall|h: usize| #![trigger self.hosts[h as int].group] (h < self.hosts.len()
                && self.scores[h as int] is Some && (self.hosts[h as int].group matches Some(g)
                && order.take(k).contains(g))) ==> shows(self.blocks(order, k), h),
        decreases k,
    {
        if k > 0 {
            self.lemma_blocks(order, k - 1);
            let name = order[k - 1];
            self.lemma_named_block(name);
            lemma_concat_rows(self.blocks(order, k - 1), self.named_block(name), self.scores);
            assert(order.take(k) =~= order.take(k - 1).push(name));
            if self.filtering {
                assert forall|h: usize| #![trigger self.hosts[h as int].group] (h < self.hosts.len() && self.scores[h as int] is Some
                    && (self.hosts[h as int].group matches Some(g) && order.take(k).contains(g))) implies shows(
                    self.blocks(order, k),
                    h,
                ) by {
                    let g = self.hosts[h as int].group->0;
                    let q = choose|q: int| 0 <= q < order.take(k).len() && order.take(k)[q] == g;
                    if q < k - 1 {
                        assert(order.take(k - 1)[q] == g);
                        assert(order.take(k - 1).contains(g));
                    } else {
                        assert(g == name);
                    }
                }
            }
        } else {
            assert(self.blocks(order, 0) =~= Seq::<RowView>::empty());
        }
    }

    /// Every host row shows a host whose score is `Some`; while filtering, every
    /// host whose score is `Some` has a row.
    pub proof fn lemma_rows_match(self)
        requires
            self.scores.len() == self.hosts.len(),
            self.hosts.len() <= usize::MAX,
        ensures
            rows_match(self.rows(), self.scores),
            self.filtering ==> forall|h: usize| h < self.hosts.len() && #[trigger] self.scores[h as int] is Some
                ==> shows(self.rows(), h),
    {
        let vis = self.vis();
        lemma_visible_upto(self.scores, self.scores.len() as int);
        let head = seq![RowView::ConsoleAction];
        assert(rows_match(head, self.scores)) by {
            assert(row_idx(head[0]) is None);
        }
        if !self.any_grouping() {
            lemma_ranked(vis, self.scores, self.filtering);
            let rk = ranked(vis, self.scores, self.filtering);
            let hr = host_rows(rk, Seq::empty());
            assert(rows_match(hr, self.scores)) by {
                assert forall|k: int| 0 <= k < hr.len() implies (#[trigger] row_idx(hr[k]) matches Some(i) ==> i
                    < self.scores.len() && self.scores[i as int] is Some) by {
                    assert(row_idx(hr[k]) == Some(rk[k]));
                }
            }
            lemma_concat_rows(head, hr, self.scores);
            if self.filtering {
                assert forall|h: usize| h < self.hosts.len() && #[trigger] self.scores[h as int] is Some implies shows(
                    self.rows(),
                    h,
                ) by {
                    assert(vis.contains(h));
                    assert(rk.contains(h));
                    let j = choose|j: int| 0 <= j < rk.len() && rk[j] == h;
                    assert(row_idx(hr[j]) == Some(h));
                    assert(shows(hr, h));
                }
            }
        } else {
            let order = group_order(self.groups, self.hosts, vis);
            self.lemma_blocks(order, order.len() as int);
            assert(order.take(order.len() as int) =~= order);
            lemma_extend_order(declared_names(self.groups, self.groups.len() as int), self.hosts, vis, vis.len() as int);
            let bl = self.blocks(order, order.len() as int);
            lemma_concat_rows(head, bl, self.scores);
            lemma_members_upto(self.hosts, vis, None, vis.len() as int, self.scores);
            let ms = members_upto(self.hosts, vis, None, vis.len() as int);
            lemma_ranked(ms, self.scores, self.filtering);
            let rk = ranked(ms, self.scores, self.filtering);
            lemma_block_rows(rk, "Ungrouped"@, Seq::empty(), self.collapsed, self.filtering, self.scores);
            lemma_concat_rows(head + bl, self.ungrouped_block(), self.scores);
            if self.filtering {
                assert forall|h: usize| h < self.hosts.len() && #[trigger] self.scores[h as int] is Some implies shows(
                    self.rows(),
                    h,
                ) by {
                    assert(vis.contains(h));
                    let j = choose|j: int| 0 <= j < vis.len() && vis[j] == h;
                    match self.hosts[h as int].group {
                        Some(g) => {
                            assert(order.contains(g));
                            assert(shows(bl, h));
                        },
                        None => {
                            assert(ms.contains(vis[j]));
                            assert(rk.contains(h));
                        },
                    }
                }
            }
        }
    }
}

/// While a filter is typed, the host list shows exactly the hosts that match it:
/// every host row is a host that some field of matches the filter, and every
/// such host has a row (collapsed groups open while filtering).
pub proof fn lemma_filter_shows_matches(
    hosts: Seq<HostView>,
    groups: Seq<GroupView>,
    collapsed: Seq<Seq<char>>,
    filter: Seq<char>,
)
    requires
        filter.len() > 0,
        hosts.len() <= usize::MAX,
    ensures
        ({
            let rows = list_input(hosts, groups, collapsed, filter).rows();
            &&& forall|k: int| 0 <= k < rows.len() ==> (#[trigger] row_idx(rows[k]) matches Some(i) ==> i < hosts.len()
                && spec_host_score(filter, hosts[i as int]) is Some)
            &&& forall|h: usize| h < hosts.len() && #[trigger] spec_host_score(filter, hosts[h as int]) is Some ==> shows(
                rows,
                h,
            )
        }),
{
    let inp = list_input(hosts, groups, collapsed, filter);
    inp.lemma_rows_match();
    let rows = inp.rows();
    assert forall|h: usize| h < hosts.len() && #[trigger] spec_host_score(filter, hosts[h as int]) is Some implies shows(
        rows,
        h,
    ) by {
        assert(inp.scores[h as int] == spec_host_score(filter, hosts[h as int]));
    }
    assert forall|k: int| 0 <= k < rows.len() implies (#[trigger] row_idx(rows[k]) matches Some(i) ==> i < hosts.len()
        && spec_host_score(filter, hosts[i as int]) is Some) by {
        if let Some(i) = row_idx(rows[k]) {
            assert(inp.scores[i as int] == spec_host_score(filter, hosts[i as int]));
        }
    }
}

/// `r` is ordered best-first.
pub open spec fn best_first(r: Seq<usize>, scores: Seq<Option<i32>>) -> bool {
    forall|i: int, j: int| 0 <= i < j < r.len() ==> score_key(scores[#[trigger] r[i] as int]) >= score_key(
        scores[#[trigger] r[j] as int],
    )
}

proof fn lemma_insert_pos(r: Seq<usize>, scores: Seq<Option<i32>>, key: int, k: int)
    requires
        0 <= k <= r.len(),
    ensures
        k <= insert_pos(r, scores, key, k) <= r.len(),
        forall|i: int| k <= i < insert_pos(r, scores, key, k) ==> score_key(scores[#[trigger] r[i] as int]) >= key,
        insert_pos(r, scores, key, k) < r.len() ==> score_key(scores[r[insert_pos(r, scores, key, k)] as int]) < key,
    decreases r.len() - k,
{
    if k < r.len() && score_key(scores[r[k] as int]) >= key {
        lemma_insert_pos(r, scores, key, k + 1);
    }
}

/// Ranking orders the list best-first (higher scores before lower ones).
pub proof fn lemma_rank_best_first(list: Seq<usize>, scores: Seq<Option<i32>>, k: int)
    requires
        0 <= k <= list.len(),
    ensures
        best_first(rank_upto(list, scores, k), scores),
    decreases k,
{
    if k > 0 {
        lemma_rank_best_first(list, scores, k - 1);
        let r = rank_upto(list, scores, k - 1);
        let x = list[k - 1];
        let key = score_key(scores[x as int]);
        let p = insert_pos(r, scores, key, 0);
        lemma_insert_pos(r, scores, key, 0);
        let r2 = r.insert(p, x);
        assert forall|i: int, j: int| 0 <= i < j < r2.len() implies score_key(scores[#[trigger] r2[i] as int]) >= score_key(
            scores[#[trigger] r2[j] as int],
        ) by {
            if j < p {
                assert(r2[i] == r[i] && r2[j] == r[j]);
            } else if j == p {
                assert(r2[i] == r[i]);
            } else if i > p {
                assert(r2[i] == r[i - 1] && r2[j] == r[j - 1]);
            } else if i == p {
                assert(r2[j] == r[j - 1]);
                assert(score_key(scores[r[p] as int]) < key);
                if j - 1 > p {
                    assert(score_key(scores[r[p] as int]) >= score_key(scores[r[j - 1] as int]));
                }
            } else {
                assert(r2[i] == r[i] && r2[j] == r[j - 1]);
            }
        }
    }
}

proof fn lemma_best_upto(vis: Seq<usize>, scores: Seq<Option<i32>>, k: int)
    requires
        0 <= k <= vis.len(),
    ensures
        k == 0 <==> best_upto(vis, scores, k) is None,
        best_upto(vis, scores, k) matches Some(b) ==> (exists|j: int| 0 <= j < k && vis[j] == b) && forall|j: int|
            0 <= j < k ==> score_key(scores[#[trigger] vis[j] as int]) <= score_key(scores[b as int]),
    decreases k,
{
    if k > 0 {
        lemma_best_upto(vis, scores, k - 1);
        match best_upto(vis, scores, k - 1) {
            None => {
                assert(vis[k - 1] == vis[k - 1]);
            },
            Some(b) => {
                let j0 = choose|j: int| 0 <= j < k - 1 && vis[j] == b;
                assert(vis[j0] == b);
            },
        }
    }
}

/// While filtering, the preselected host is a matching host with the highest
/// score among the matching hosts; there is one exactly when some host matches.
pub proof fn lemma_best_is_top(hosts: Seq<HostView>, groups: Seq<GroupView>, collapsed: Seq<Seq<char>>, filter: Seq<char>)
    requires
        filter.len() > 0,
        hosts.len() <= usize::MAX,
    ensures
        ({
            let inp = list_input(hosts, groups, collapsed, filter);
            &&& inp.best() is Some <==> exists|h: int| 0 <= h < hosts.len() && (#[trigger] spec_host_score(filter, hosts[h])) is Some
            &&& inp.best() matches Some(b) ==> b < hosts.len() && spec_host_score(filter, hosts[b as int]) is Some
                && forall|h: int| 0 <= h < hosts.len() ==> score_key(#[trigger] spec_host_score(filter, hosts[h]))
                <= score_key(spec_host_score(filter, hosts[b as int]))
        }),
{
    let inp = list_input(hosts, groups, collapsed, filter);
    let vis = inp.vis();
    lemma_visible_upto(inp.scores, inp.scores.len() as int);
    lemma_best_upto(vis, inp.scores, vis.len() as int);
    if exists|h: int| 0 <= h < hosts.len() && (#[trigger] spec_host_score(filter, hosts[h])) is Some {
        let h = choose|h: int| 0 <= h < hosts.len() && (#[trigger] spec_host_score(filter, hosts[h])) is Some;
        assert(inp.scores[h] is Some);
        assert(vis.contains(h as usize));
    }
    if let Some(b) = inp.best() {
        let j0 = choose|j: int| 0 <= j < vis.len() && vis[j] == b;
        assert(all_match(vis, inp.scores));
        assert(vis[j0] < inp.scores.len());
        assert(inp.scores[b as int] == spec_host_score(filter, hosts[b as int]));
        assert forall|h: int| 0 <= h < hosts.len() implies score_key(#[trigger] spec_host_score(filter, hosts[h]))
            <= score_key(spec_host_score(filter, hosts[b as int])) by {
            assert(inp.scores[h] == spec_host_score(filter, hosts[h]));
            if inp.scores[h] is Some {
                assert(vis.contains(h as usize));
                let j = choose|j: int| 0 <= j < vis.len() && vis[j] == h as usize;
                assert(score_key(inp.scores[vis[j] as int]) <= score_key(inp.scores[b as int]));
            } else {
                assert(score_key(inp.scores[h]) == i32::MIN - 1);
            }
        }
    }
}


// ───────────────────────── the unfiltered list ─────────────────────────

/// With every score present, the visible hosts are `0..k` in order.
proof fn lemma_all_visible(scores: Seq<Option<i32>>, k: int)
    requires
        0 <= k <= scores.len(),
        scores.len() <= usize::MAX,
        forall|i: int| 0 <= i < scores.len() ==> (#[trigger] scores[i]) is Some,
    ensures
        visible_upto(scores, k).len() == k,
        forall|j: int| 0 <= j < k ==> #[trigger] visible_upto(scores, k)[j] == j as usize,
    decreases k,
{
    if k > 0 {
        lemma_all_visible(scores, k - 1);
        assert(scores[k - 1] is Some);
    }
}

/// Over the visible list `0..`, the members of group `g` among the first `k`
/// are the hosts below `k` whose group is `g`.
proof fn lemma_members_contains(hosts: Seq<HostView>, vis: Seq<usize>, g: Option<Seq<char>>, k: int, x: usize)
    requires
        0 <= k <= vis.len(),
        vis.len() <= hosts.len(),
        forall|j: int| 0 <= j < vis.len() ==> #[trigger] vis[j] == j as usize,
    ensures
        members_upto(hosts, vis, g, k).contains(x) <==> (x < k && hosts[x as int].group == g),
    decreases k,
{
    if k > 0 {
        lemma_members_contains(hosts, vis, g, k - 1, x);
        assert(vis[k - 1] == (k - 1) as usize);
        let m = members_upto(hosts, vis, g, k - 1);
        if hosts[vis[k - 1] as int].group == g {
            assert(m.push(vis[k - 1]).contains(x) <==> (m.contains(x) || vis[k - 1] == x)) by {
                if m.push(vis[k - 1]).contains(x) {
                    let i = choose|i: int| 0 <= i < m.len() + 1 && #[trigger] m.push(vis[k - 1])[i] == x;
                    if i < m.len() {
                        assert(m[i] == x);
                    }
                }
                if m.contains(x) {
                    let i = choose|i: int| 0 <= i < m.len() && #[trigger] m[i] == x;
                    assert(m.push(vis[k - 1])[i] == x);
                }
                if vis[k - 1] == x {
                    assert(m.push(vis[k - 1])[m.len() as int] == x);
                }
            }
        }
    }
}

/// A row of `a + b` shows `h` exactly when a row of `a` or of `b` does.
proof fn lemma_shows_concat(a: Seq<RowView>, b: Seq<RowView>, h: usize)
    ensures
        shows(a + b, h) <==> (shows(a, h) || shows(b, h)),
{
    if shows(a + b, h) {
        let k = choose|k: int| 0 <= k < (a + b).len() && #[trigger] row_idx((a + b)[k]) == Some(h);
        if k < a.len() {
            assert(row_idx(a[k]) == Some(h));
        } else {
            assert(row_idx(b[k - a.len()]) == Some(h));
        }
    }
    if shows(a, h) {
        let k = choose|k: int| 0 <= k < a.len() && #[trigger] row_idx(a[k]) == Some(h);
        assert(row_idx((a + b)[k]) == Some(h));
    }
    if shows(b, h) {
        let k = choose|k: int| 0 <= k < b.len() && #[trigger] row_idx(b[k]) == Some(h);
        assert(row_idx((a + b)[a.len() + k]) == Some(h));
    }
}

/// The host rows of `ms` show exactly the hosts in `ms`.
proof fn lemma_shows_host_rows(ms: Seq<usize>, icon: Seq<char>, h: usize)
    ensures
        shows(host_rows(ms, icon), h) <==> ms.contains(h),
{
    let r = host_rows(ms, icon);
    if shows(r, h) {
        let k = choose|k: int| 0 <= k < r.len() && #[trigger] row_idx(r[k]) == Some(h);
        assert(ms[k] == h);
    }
    if ms.contains(h) {
        let k = choose|k: int| 0 <= k < ms.len() && #[trigger] ms[k] == h;
        assert(row_idx(r[k]) == Some(h));
    }
}

/// Without a filter, a group's block shows a host exactly when the host is
/// one of its members and the group is not collapsed.
proof fn lemma_shows_block(ms: Seq<usize>, name: Seq<char>, icon: Seq<char>, collapsed: Seq<Seq<char>>, h: usize)
    ensures
        shows(block(ms, name, icon, collapsed, false), h) <==> (ms.contains(h) && !collapsed.contains(name)),
{
    if ms.len() > 0 {
        let head = seq![RowView::Group { name, icon, collapsed: collapsed.contains(name) }];
        let rest = if !collapsed.contains(name) {
            host_rows(ms, icon)
        } else {
            Seq::empty()
        };
        lemma_shows_concat(head, rest, h);
        assert(!shows(head, h)) by {
            if shows(head, h) {
                let k = choose|k: int| 0 <= k < head.len() && #[trigger] row_idx(head[k]) == Some(h);
                assert(head[k] is Group);
            }
        }
        lemma_shows_host_rows(ms, icon, h);
        if collapsed.contains(name) {
            assert(!shows(rest, h)) by {
                if shows(rest, h) {
                    let k = choose|k: int| 0 <= k < rest.len() && #[trigger] row_idx(rest[k]) == Some(h);
                }
            }
        }
    } else {
        assert(!shows(block(ms, name, icon, collapsed, false), h)) by {
            if shows(block(ms, name, icon, collapsed, false), h) {
                let k = choose|k: int| 0 <= k < 0 && #[trigger] row_idx(block(ms, name, icon, collapsed, false)[k])
                    == Some(h);
            }
        }
    }
}

impl ListInput {
    /// Without a filter and with every host visible, a group's blocks that
    /// show host `c` also show host `t` of the same group.
    proof fn lemma_blocks_same_group(self, order: Seq<Seq<char>>, k: int, c: usize, t: usize)
        requires
            !self.filtering,
            0 <= k <= order.len(),
            c < self.hosts.len(),
            t < self.hosts.len(),
            self.hosts[c as int].group == self.hosts[t as int].group,
            self.vis().len() == self.hosts.len(),
            forall|j: int| 0 <= j < self.vis().len() ==> #[trigger] self.vis()[j] == j as usize,
            shows(self.blocks(order, k), c),
        ensures
            shows(self.blocks(order, k), t),
        decreases k,
    {
        if k > 0 {
            let prev = self.blocks(order, k - 1);
            let name = order[k - 1];
            let vis = self.vis();
            let ms = members_upto(self.hosts, vis, Some(name), vis.len() as int);
            lemma_shows_concat(prev, self.named_block(name), c);
            lemma_shows_concat(prev, self.named_block(name), t);
            if shows(prev, c) {
                self.lemma_blocks_same_group(order, k - 1, c, t);
            } else {
                lemma_shows_block(ms, name, icon_from(self.groups, name, 0), self.collapsed, c);
                lemma_shows_block(ms, name, icon_from(self.groups, name, 0), self.collapsed, t);
                lemma_members_contains(self.hosts, vis, Some(name), vis.len() as int, c);
                lemma_members_contains(self.hosts, vis, Some(name), vis.len() as int, t);
            }
        }
    }

    /// Without a filter (every host then scores), if host `c` has a row, so
    /// has every host `t` of the same group.
    pub proof fn lemma_same_group_shown(self, c: usize, t: usize)
        requires
            !self.filtering,
            self.scores.len() == self.hosts.len(),
            self.hosts.len() <= usize::MAX,
            forall|i: int| 0 <= i < self.scores.len() ==> (#[trigger] self.scores[i]) is Some,
            c < self.hosts.len(),
            t < self.hosts.len(),
            self.hosts[c as int].group == self.hosts[t as int].group,
            shows(self.rows(), c),
        ensures
            shows(self.rows(), t),
    {
        let vis = self.vis();
        lemma_all_visible(self.scores, self.scores.len() as int);
        let head = seq![RowView::ConsoleAction];
        assert(!shows(head, c) && !shows(head, t)) by {
            if shows(head, c) {
                let k = choose|k: int| 0 <= k < head.len() && #[trigger] row_idx(head[k]) == Some(c);
            }
            if shows(head, t) {
                let k = choose|k: int| 0 <= k < head.len() && #[trigger] row_idx(head[k]) == Some(t);
            }
        }
        if !self.any_grouping() {
            let body = host_rows(ranked(vis, self.scores, self.filtering), Seq::empty());
            lemma_shows_concat(head, body, t);
            lemma_shows_host_rows(vis, Seq::empty(), t);
            assert(vis[t as int] == t);
        } else {
            let order = group_order(self.groups, self.hosts, vis);
            let b = self.blocks(order, order.len() as int);
            let u = self.ungrouped_block();
            lemma_shows_concat(head + b, u, c);
            lemma_shows_concat(head, b, c);
            lemma_shows_concat(head + b, u, t);
            lemma_shows_concat(head, b, t);
            if shows(b, c) {
                self.lemma_blocks_same_group(order, order.len() as int, c, t);
            } else {
                let ms = members_upto(self.hosts, vis, None, vis.len() as int);
                lemma_shows_block(ms, "Ungrouped"@, Seq::empty(), self.collapsed, c);
                lemma_shows_block(ms, "Ungrouped"@, Seq::empty(), self.collapsed, t);
                lemma_members_contains(self.hosts, vis, None, vis.len() as int, c);
                lemma_members_contains(self.hosts, vis, None, vis.len() as int, t);
            }
        }
    }
}


/// Hosts with the same groups, position by position.
pub open spec fn same_groups(a: Seq<HostView>, b: Seq<HostView>) -> bool {
    a.len() == b.len() && forall|i: int| 0 <= i < a.len() ==> (#[trigger] a[i]).group == b[i].group
}

proof fn lemma_extend_order_groups(order: Seq<Seq<char>>, a: Seq<HostView>, b: Seq<HostView>, vis: Seq<usize>, k: int)
    requires
        same_groups(a, b),
        0 <= k <= vis.len(),
        forall|j: int| 0 <= j < vis.len() ==> #[trigger] vis[j] < a.len(),
    ensures
        extend_order(order, a, vis, k) == extend_order(order, b, vis, k),
    decreases k,
{
    if k > 0 {
        lemma_extend_order_groups(order, a, b, vis, k - 1);
        assert(a[vis[k - 1] as int].group == b[vis[k - 1] as int].group);
    }
}

proof fn lemma_members_groups(a: Seq<HostView>, b: Seq<HostView>, vis: Seq<usize>, g: Option<Seq<char>>, k: int)
    requires
        same_groups(a, b),
        0 <= k <= vis.len(),
        forall|j: int| 0 <= j < vis.len() ==> #[trigger] vis[j] < a.len(),
    ensures
        members_upto(a, vis, g, k) == members_upto(b, vis, g, k),
    decreases k,
{
    if k > 0 {
        lemma_members_groups(a, b, vis, g, k - 1);
        assert(a[vis[k - 1] as int].group == b[vis[k - 1] as int].group);
    }
}

impl ListInput {
    proof fn lemma_blocks_groups(self, other: ListInput, order: Seq<Seq<char>>, k: int)
        requires
            same_groups(self.hosts, other.hosts),
            self.groups == other.groups,
            self.collapsed == other.collapsed,
            self.scores == other.scores,
            self.filtering == other.filtering,
            0 <= k <= order.len(),
            forall|j: int| 0 <= j < self.vis().len() ==> #[trigger] self.vis()[j] < self.hosts.len(),
        ensures
            self.blocks(order, k) == other.blocks(order, k),
        decreases k,
    {
        if k > 0 {
            self.lemma_blocks_groups(other, order, k - 1);
            lemma_members_groups(self.hosts, other.hosts, self.vis(), Some(order[k - 1]), self.vis().len() as int);
        }
    }

    /// The rows read the hosts only through their groups (and the scores): two
    /// inputs that agree on everything else and on the group of every host have
    /// the same rows.
    pub proof fn lemma_rows_by_groups(self, other: ListInput)
        requires
            same_groups(self.hosts, other.hosts),
            self.groups == other.groups,
            self.collapsed == other.collapsed,
            self.scores == other.scores,
            self.filtering == other.filtering,
            self.scores.len() == self.hosts.len(),
            self.hosts.len() <= usize::MAX,
            forall|i: int| 0 <= i < self.scores.len() ==> (#[trigger] self.scores[i]) is Some,
        ensures
            self.rows() == other.rows(),
    {
        lemma_all_visible(self.scores, self.scores.len() as int);
        let vis = self.vis();
        assert forall|j: int| 0 <= j < vis.len() implies #[trigger] vis[j] < self.hosts.len() by {
            assert(vis[j] == j as usize);
        }
        assert(self.any_grouping() == other.any_grouping()) by {
            assert(same_groups(self.hosts, other.hosts));
            assert(forall|i: int| 0 <= i < self.hosts.len() ==> (#[trigger] self.hosts[i]).group == other.hosts[i].group);
            if self.any_grouping() && self.groups.len() == 0 {
                let i = choose|i: int| 0 <= i < self.hosts.len() && (#[trigger] self.hosts[i]).group is Some;
                assert(self.hosts[i].group == other.hosts[i].group);
                assert(other.hosts[i].group is Some);
            }
            if other.any_grouping() && other.groups.len() == 0 {
                let i = choose|i: int| 0 <= i < other.hosts.len() && (#[trigger] other.hosts[i]).group is Some;
                assert(self.hosts[i].group == other.hosts[i].group);
                assert(self.hosts[i].group is Some);
            }
        }
        lemma_extend_order_groups(
            declared_names(self.groups, self.groups.len() as int),
            self.hosts,
            other.hosts,
            vis,
            vis.len() as int,
        );
        let order = group_order(self.groups, self.hosts, vis);
        self.lemma_blocks_groups(other, order, order.len() as int);
        lemma_members_groups(self.hosts, other.hosts, vis, None, vis.len() as int);
    }
}

} // verus!
