//! A handle registry for rendered rectangles, in the manner of window
//! handles: widgets register the screen area they drew into and others
//! look it up by handle or by name. Tab-bar state rides along, keyed by
//! the same handles.

use vstd::prelude::*;

verus! {

/// Handle to a registered rectangle.
#[derive(Debug, Clone, Copy, PartialEq, Eq, Hash, Structural)]
pub struct RectHandle(pub u64);

impl RectHandle {
    /// The internal id of this handle.
    pub fn id(&self) -> (r: u64)
        ensures
            r == self.0,
    {
        self.0
    }
}

/// Position and size of a registered rectangle.
#[derive(Debug, Clone, Copy, PartialEq, Eq, Structural)]
pub struct RectMetrics {
    pub x: u16,
    pub y: u16,
    pub width: u16,
    pub height: u16,
}

/// One registered rectangle.
#[derive(Debug, Clone)]
pub struct RegistryEntry {
    pub id: u64,
    pub name: Option<String>,
    pub metrics: RectMetrics,
}

/// Coloring state of a single tab.
#[derive(Debug, Clone, Copy, PartialEq, Eq, Structural)]
pub enum TabState {
    /// No special coloring.
    Default,
    /// Highlighted as active.
    Active,
    /// Highlighted as negated.
    Negate,
    /// Shown as disabled.
    Disabled,
}

/// State-based colors for tab bars.
#[derive(Debug, Clone)]
pub struct TabBarStateColors {
    pub active: Option<String>,
    pub negate: Option<String>,
    pub disabled: Option<String>,
}

/// Alignment configuration for a tab bar.
#[derive(Debug, Clone)]
pub struct AlignmentConfigData {
    /// Vertical position: "top" or "bottom".
    pub vertical: String,
    /// Horizontal alignment: "left", "center", or "right".
    pub horizontal: String,
    pub offset_x: u16,
    pub offset_y: u16,
}

/// Tab bar configuration stored in the registry.
#[derive(Debug, Clone)]
pub struct TabBarConfigData {
    pub hwnd: String,
    pub anchor: String,
    pub style: String,
    pub color: String,
    pub tab_bar_type: Option<String>,
    pub state_colors: Option<TabBarStateColors>,
    pub alignment: AlignmentConfigData,
    pub min_tab_width: u16,
    pub tab_tooltips: bool,
}

/// Configuration of one tab.
#[derive(Debug, Clone)]
pub struct TabConfigData {
    pub id: String,
    pub name: String,
    pub active: bool,
    pub state: TabState,
}

/// Tab bar state stored in the registry. The last navigation instant is
/// kept in milliseconds for the debounce check.
#[derive(Debug, Clone)]
pub struct TabBarState {
    pub active_tab_index: usize,
    pub tab_count: usize,
    pub tab_names: Vec<String>,
    pub tab_configs: Vec<TabConfigData>,
    pub config: TabBarConfigData,
    pub last_navigation_time: Option<u64>,
}

/// The index of the first entry with the given id, or -1.
pub open spec fn find_id(s: Seq<RegistryEntry>, id: u64) -> int
    decreases s.len(),
{
    if s.len() == 0 {
        -1
    } else if s[0].id == id {
        0
    } else {
        let r = find_id(s.skip(1), id);
        if r == -1 {
            -1
        } else {
            r + 1
        }
    }
}

/// Some entry carries the name `n`.
pub open spec fn name_in_entries(n: Seq<char>, s: Seq<RegistryEntry>) -> bool {
    exists|q: int|
        0 <= q < s.len() && ((#[trigger] s[q].name) matches Some(m) && m@ == n)
}

/// The index of the first entry named `n`, or -1.
pub open spec fn find_name(s: Seq<RegistryEntry>, n: Seq<char>) -> int
    decreases s.len(),
{
    if s.len() == 0 {
        -1
    } else if s[0].name matches Some(m) && m@ == n {
        0
    } else {
        let r = find_name(s.skip(1), n);
        if r == -1 {
            -1
        } else {
            r + 1
        }
    }
}

/// The index of the first tab-bar state keyed by `id`, or -1.
pub open spec fn find_tab(s: Seq<(u64, TabBarState)>, id: u64) -> int
    decreases s.len(),
{
    if s.len() == 0 {
        -1
    } else if s[0].0 == id {
        0
    } else {
        let r = find_tab(s.skip(1), id);
        if r == -1 {
            -1
        } else {
            r + 1
        }
    }
}

proof fn lemma_find_id_at(s: Seq<RegistryEntry>, id: u64, k: int)
    requires
        0 <= k <= s.len(),
        forall|q: int| 0 <= q < k ==> (#[trigger] s[q]).id != id,
        k == s.len() || s[k].id == id,
    ensures
        k < s.len() ==> find_id(s, id) == k,
        k == s.len() ==> find_id(s, id) == -1,
    decreases k, s.len(),
{
    if s.len() == 0 {
    } else if k == 0 {
    } else {
        assert(forall|q: int| 0 <= q < k - 1 ==> #[trigger] s.skip(1)[q] == s[q + 1]);
        lemma_find_id_at(s.skip(1), id, k - 1);
    }
}

proof fn lemma_find_name_at(s: Seq<RegistryEntry>, n: Seq<char>, k: int)
    requires
        0 <= k <= s.len(),
        forall|q: int| 0 <= q < k ==> !((#[trigger] s[q]).name matches Some(m) && m@ == n),
        k == s.len() || (s[k].name matches Some(m) && m@ == n),
    ensures
        k < s.len() ==> find_name(s, n) == k,
        k == s.len() ==> find_name(s, n) == -1,
    decreases k, s.len(),
{
    if s.len() == 0 {
    } else if k == 0 {
    } else {
        assert(forall|q: int| 0 <= q < k - 1 ==> #[trigger] s.skip(1)[q] == s[q + 1]);
        lemma_find_name_at(s.skip(1), n, k - 1);
    }
}

proof fn lemma_find_name_ge(s: Seq<RegistryEntry>, n: Seq<char>)
    ensures
        find_name(s, n) >= -1,
    decreases s.len(),
{
    if s.len() == 0 {
    } else if s[0].name matches Some(m) && m@ == n {
    } else {
        lemma_find_name_ge(s.skip(1), n);
    }
}

/// If no entry carries the name, the whole list misses it.
proof fn lemma_find_name_none(s: Seq<RegistryEntry>, n: Seq<char>)
    requires
        find_name(s, n) == -1,
    ensures
        forall|q: int| 0 <= q < s.len() ==> !((#[trigger] s[q]).name matches Some(m) && m@ == n),
    decreases s.len(),
{
    if s.len() == 0 {
    } else {
        lemma_find_name_ge(s.skip(1), n);
        lemma_find_name_none(s.skip(1), n);
        assert(forall|q: int| 1 <= q < s.len() ==> s[q] == s.skip(1)[q - 1]);
    }
}

/// Lists with the same ids entry for entry are searched alike.
proof fn lemma_find_id_same(s1: Seq<RegistryEntry>, s2: Seq<RegistryEntry>, id: u64)
    requires
        s1.len() == s2.len(),
        forall|q: int| 0 <= q < s1.len() ==> (#[trigger] s1[q]).id == s2[q].id,
    ensures
        find_id(s1, id) == find_id(s2, id),
    decreases s1.len(),
{
    if s1.len() == 0 {
    } else {
        assert(s1[0].id == s2[0].id);
        assert(forall|q: int| 0 <= q < s1.len() - 1 ==> #[trigger] s1.skip(1)[q] == s1[q + 1]);
        assert(forall|q: int| 0 <= q < s2.len() - 1 ==> #[trigger] s2.skip(1)[q] == s2[q + 1]);
        lemma_find_id_same(s1.skip(1), s2.skip(1), id);
    }
}

/// A found name index lies inside the list.
proof fn lemma_find_name_hit(s: Seq<RegistryEntry>, n: Seq<char>)
    requires
        find_name(s, n) >= 0,
    ensures
        find_name(s, n) < s.len(),
    decreases s.len(),
{
    if s.len() == 0 {
    } else if s[0].name matches Some(m) && m@ == n {
    } else {
        lemma_find_name_hit(s.skip(1), n);
    }
}

/// Lists with the same names entry for entry are searched alike.
proof fn lemma_find_name_same(s1: Seq<RegistryEntry>, s2: Seq<RegistryEntry>, n: Seq<char>)
    requires
        s1.len() == s2.len(),
        forall|q: int| 0 <= q < s1.len() ==> (#[trigger] s1[q]).name == s2[q].name,
    ensures
        find_name(s1, n) == find_name(s2, n),
    decreases s1.len(),
{
    if s1.len() == 0 {
    } else {
        assert(s1[0].name == s2[0].name);
        assert(forall|q: int| 0 <= q < s1.len() - 1 ==> #[trigger] s1.skip(1)[q] == s1[q + 1]);
        assert(forall|q: int| 0 <= q < s2.len() - 1 ==> #[trigger] s2.skip(1)[q] == s2[q + 1]);
        lemma_find_name_same(s1.skip(1), s2.skip(1), n);
    }
}

proof fn lemma_find_tab_at(s: Seq<(u64, TabBarState)>, id: u64, k: int)
    requires
        0 <= k <= s.len(),
        forall|q: int| 0 <= q < k ==> (#[trigger] s[q]).0 != id,
        k == s.len() || s[k].0 == id,
    ensures
        k < s.len() ==> find_tab(s, id) == k,
        k == s.len() ==> find_tab(s, id) == -1,
    decreases k, s.len(),
{
    if s.len() == 0 {
    } else if k == 0 {
    } else {
        assert(forall|q: int| 0 <= q < k - 1 ==> #[trigger] s.skip(1)[q] == s[q + 1]);
        lemma_find_tab_at(s.skip(1), id, k - 1);
    }
}

/// Registry of rendered rectangles and tab-bar state.
#[derive(Debug, Clone)]
pub struct RectRegistry {
    entries: Vec<RegistryEntry>,
    tab_bar_states: Vec<(u64, TabBarState)>,
    next_id: u64,
}

impl RectRegistry {
    /// The registered entries.
    pub closed spec fn entries_view(self) -> Seq<RegistryEntry> {
        self.entries@
    }

    /// The stored tab-bar states.
    pub closed spec fn tabs_view(self) -> Seq<(u64, TabBarState)> {
        self.tab_bar_states@
    }

    /// The metrics registered under `id`, if any.
    pub open spec fn spec_metrics(self, id: u64) -> Option<RectMetrics> {
        let f = find_id(self.entries_view(), id);
        if f >= 0 {
            Some(self.entries_view()[f].metrics)
        } else {
            None
        }
    }

    /// The id registered under the name `n`, if any.
    pub open spec fn spec_id_of_name(self, n: Seq<char>) -> Option<u64> {
        let f = find_name(self.entries_view(), n);
        if f >= 0 {
            Some(self.entries_view()[f].id)
        } else {
            None
        }
    }

    /// The tab-bar state stored for `id`, if any.
    pub open spec fn spec_tab_state(self, id: u64) -> Option<TabBarState> {
        let f = find_tab(self.tabs_view(), id);
        if f >= 0 {
            Some(self.tabs_view()[f].1)
        } else {
            None
        }
    }

    /// A new, empty registry; ids start at one so that zero can stand
    /// for an invalid handle.
    pub fn new() -> (r: RectRegistry)
        ensures
            r.entries_view().len() == 0,
            r.tabs_view().len() == 0,
    {
        RectRegistry { entries: Vec::new(), tab_bar_states: Vec::new(), next_id: 1 }
    }

    /// Find the first entry with the given id.
    fn find_entry(&self, id: u64) -> (r: Option<usize>)
        ensures
            match r {
                Some(k) => find_id(self.entries_view(), id) == k && k < self.entries_view().len()
                    && self.entries_view()[k as int].id == id && (forall|q: int|
                    0 <= q < k ==> (#[trigger] self.entries_view()[q]).id != id),
                None => find_id(self.entries_view(), id) == -1,
            },
    {
        let mut k: usize = 0;
        while k < self.entries.len()
            invariant
                0 <= k <= self.entries@.len(),
                forall|q: int| 0 <= q < k ==> (#[trigger] self.entries@[q]).id != id,
            decreases self.entries@.len() - k,
        {
            if self.entries[k].id == id {
                proof {
                    lemma_find_id_at(self.entries@, id, k as int);
                }
                return Some(k);
            }
            k += 1;
        }
        proof {
            lemma_find_id_at(self.entries@, id, self.entries@.len() as int);
        }
        None
    }

    /// Find the first entry with the given name.
    fn find_entry_by_name(&self, name: &str) -> (r: Option<usize>)
        ensures
            match r {
                Some(k) => find_name(self.entries_view(), name@) == k && k < self.entries_view().len()
                    && (self.entries_view()[k as int].name matches Some(m) && m@ == name@),
                None => find_name(self.entries_view(), name@) == -1,
            },
    {
        let mut k: usize = 0;
        while k < self.entries.len()
            invariant
                0 <= k <= self.entries@.len(),
                forall|q: int|
                    0 <= q < k ==> !((#[trigger] self.entries@[q]).name matches Some(m) && m@
                        == name@),
            decreases self.entries@.len() - k,
        {
            let hit = match &self.entries[k].name {
                Some(m) => crate::text::str_eq(m.as_str(), name),
                None => false,
            };
            if hit {
                proof {
                    lemma_find_name_at(self.entries@, name@, k as int);
                }
                return Some(k);
            }
            k += 1;
        }
        proof {
            lemma_find_name_at(self.entries@, name@, self.entries@.len() as int);
        }
        None
    }

    /// Find the first tab-bar state keyed by `id`.
    fn find_tab_entry(&self, id: u64) -> (r: Option<usize>)
        ensures
            match r {
                Some(k) => find_tab(self.tabs_view(), id) == k && k < self.tabs_view().len()
                    && self.tabs_view()[k as int].0 == id && (forall|q: int|
                    0 <= q < k ==> (#[trigger] self.tabs_view()[q]).0 != id),
                None => find_tab(self.tabs_view(), id) == -1,
            },
    {
        let mut k: usize = 0;
        while k < self.tab_bar_states.len()
            invariant
                0 <= k <= self.tab_bar_states@.len(),
                forall|q: int| 0 <= q < k ==> (#[trigger] self.tab_bar_states@[q]).0 != id,
            decreases self.tab_bar_states@.len() - k,
        {
            if self.tab_bar_states[k].0 == id {
                proof {
                    lemma_find_tab_at(self.tab_bar_states@, id, k as int);
                }
                return Some(k);
            }
            k += 1;
        }
        proof {
            lemma_find_tab_at(self.tab_bar_states@, id, self.tab_bar_states@.len() as int);
        }
        None
    }

    /// Register a rectangle and return its handle. A name that is already
    /// registered keeps its handle; only the metrics change. The name,
    /// when one is given, afterwards resolves to the returned handle.
    pub fn register(&mut self, name: Option<&str>, rect: RectMetrics) -> (h: RectHandle)
        ensures
            final(self).spec_metrics(h.0) == Some(rect),
            name matches Some(nm) ==> final(self).spec_id_of_name(nm@) == Some(h.0),
            name matches Some(nm) ==> (old(self).spec_id_of_name(nm@) matches Some(id0) ==> h.0
                == id0),
    {
        let reuse_idx: Option<usize> = match name {
            Some(n) => self.find_entry_by_name(n),
            None => None,
        };
        let ghost mut wit: int = 0;
        let ghost mut name_idx: int = 0;
        let id = match reuse_idx {
            Some(k) => {
                proof {
                    wit = k as int;
                    name_idx = k as int;
                }
                self.entries[k].id
            },
            None => {
                let id = self.next_id;
                if self.next_id < u64::MAX {
                    self.next_id = self.next_id + 1;
                }
                let owned_name = match name {
                    Some(s) => Some(s.to_owned()),
                    None => None,
                };
                let ghost pre_push = self.entries@;
                self.entries.push(RegistryEntry { id, name: owned_name, metrics: rect });
                proof {
                    wit = self.entries@.len() - 1;
                    name_idx = self.entries@.len() - 1;
                    if let Some(n) = name {
                        lemma_find_name_none(pre_push, n@);
                        assert(forall|q: int|
                            0 <= q < pre_push.len() ==> (#[trigger] self.entries@[q])
                                == pre_push[q]);
                        lemma_find_name_at(self.entries@, n@, name_idx);
                    }
                }
                id
            },
        };
        proof {
            assert(0 <= wit < self.entries@.len());
            assert(self.entries@[wit].id == id);
        }
        // A reused name keeps its id; writing through the id lookup makes
        // the new metrics the ones that lookups find.
        let ghost pre = self.entries@;
        proof {
            if let Some(n) = name {
                assert(find_name(pre, n@) == name_idx);
                assert(pre[name_idx].id == id);
            }
        }
        match self.find_entry(id) {
            Some(k) => {
                let nm = self.entries[k].name.clone();
                self.entries.set(k, RegistryEntry { id, name: nm, metrics: rect });
                proof {
                    assert(forall|q: int| 0 <= q < k ==> self.entries@[q] == pre[q]);
                    assert(self.entries@[k as int].id == id);
                    lemma_find_id_stable_update(self.entries@, id, k as int);
                    if let Some(n) = name {
                        assert(forall|q: int|
                            0 <= q < pre.len() ==> (#[trigger] self.entries@[q]).name
                                == pre[q].name);
                        lemma_find_name_same(self.entries@, pre, n@);
                        assert(find_name(self.entries@, n@) == name_idx);
                        assert(self.entries@[name_idx].id == id);
                    }
                }
            },
            None => {
                proof {
                    lemma_find_id_none(self.entries@, id);
                    assert(self.entries@[wit].id != id);
                    assert(false);
                }
            },
        }
        RectHandle(id)
    }

    /// Update the metrics of the rectangle behind `handle`; nothing else
    /// changes: every other id keeps its metrics, every name its id, and
    /// the tab-bar states stand.
    pub fn update(&mut self, handle: RectHandle, rect: RectMetrics) -> (r: bool)
        ensures
            r == (find_id(old(self).entries_view(), handle.0) >= 0),
            r ==> final(self).spec_metrics(handle.0) == Some(rect),
            !r ==> *final(self) == *old(self),
            forall|id2: u64|
                id2 != handle.0 ==> final(self).spec_metrics(id2) == old(self).spec_metrics(id2),
            forall|n: Seq<char>| final(self).spec_id_of_name(n) == old(self).spec_id_of_name(n),
            final(self).tabs_view() == old(self).tabs_view(),
    {
        let ghost pre = self.entries@;
        if let Some(k) = self.find_entry(handle.0) {
            let nm = self.entries[k].name.clone();
            self.entries.set(k, RegistryEntry { id: handle.0, name: nm, metrics: rect });
            proof {
                assert(forall|q: int| 0 <= q < k ==> self.entries@[q] == pre[q]);
                assert(self.entries@[k as int].id == handle.0);
                lemma_find_id_stable_update(self.entries@, handle.0, k as int);
                assert(forall|q: int|
                    0 <= q < pre.len() ==> (#[trigger] self.entries@[q]).id == pre[q].id);
                assert(forall|q: int|
                    0 <= q < pre.len() ==> (#[trigger] self.entries@[q]).name == pre[q].name);
                assert forall|id2: u64|
                    id2 != handle.0 implies final(self).spec_metrics(id2) == old(
                    self,
                ).spec_metrics(id2) by {
                    lemma_find_id_same(self.entries@, pre, id2);
                    if find_id(pre, id2) >= 0 {
                        lemma_find_id_hit(pre, id2);
                        if find_id(pre, id2) == k {
                            assert(pre[k as int].id == handle.0);
                        }
                    }
                }
                assert forall|n: Seq<char>| final(self).spec_id_of_name(n) == old(
                    self,
                ).spec_id_of_name(n) by {
                    lemma_find_name_same(self.entries@, pre, n);
                    if find_name(pre, n) >= 0 {
                        lemma_find_name_hit(pre, n);
                        assert(self.entries@[find_name(pre, n)].id == pre[find_name(
                            pre,
                            n,
                        )].id);
                    }
                }
            }
            true
        } else {
            false
        }
    }

    /// Update the metrics of the rectangle named `name`.
    pub fn update_by_name(&mut self, name: &str, rect: RectMetrics) -> (r: bool)
        ensures
            r == (old(self).spec_id_of_name(name@) is Some),
            !r ==> *final(self) == *old(self),
            old(self).spec_id_of_name(name@) matches Some(id) ==> final(self).spec_metrics(id)
                == Some(rect),
    {
        let id = match self.find_entry_by_name(name) {
            Some(k) => self.entries[k].id,
            None => {
                return false;
            },
        };
        proof {
            lemma_find_id_ge(self.entries@, id);
            if find_id(self.entries@, id) == -1 {
                lemma_find_id_none(self.entries@, id);
                assert(false);
            }
        }
        self.update(RectHandle(id), rect)
    }

    /// The metrics behind `handle`, if registered.
    pub fn get_metrics(&self, handle: RectHandle) -> (r: Option<RectMetrics>)
        ensures
            r == self.spec_metrics(handle.0),
    {
        match self.find_entry(handle.0) {
            Some(k) => Some(self.entries[k].metrics),
            None => None,
        }
    }

    /// The metrics behind the name, if registered.
    pub fn get_metrics_by_name(&self, name: &str) -> (r: Option<RectMetrics>)
        ensures
            match self.spec_id_of_name(name@) {
                Some(id) => r == self.spec_metrics(id),
                None => r is None,
            },
    {
        match self.find_entry_by_name(name) {
            Some(k) => {
                let id = self.entries[k].id;
                self.get_metrics(RectHandle(id))
            },
            None => None,
        }
    }

    /// The handle registered under the name, if any.
    pub fn get_handle(&self, name: &str) -> (r: Option<RectHandle>)
        ensures
            match self.spec_id_of_name(name@) {
                Some(id) => r == Some(RectHandle(id)),
                None => r is None,
            },
    {
        match self.find_entry_by_name(name) {
            Some(k) => Some(RectHandle(self.entries[k].id)),
            None => None,
        }
    }

    /// The name a handle was registered under, if any.
    pub fn get_name(&self, handle: RectHandle) -> (r: Option<String>)
        ensures
            find_id(self.entries_view(), handle.0) >= 0 ==> (match self.entries_view()[find_id(
                self.entries_view(),
                handle.0,
            )].name {
                Some(m) => r matches Some(o) && o@ == m@,
                None => r is None,
            }),
            find_id(self.entries_view(), handle.0) == -1 ==> r is None,
    {
        match self.find_entry(handle.0) {
            Some(k) => match &self.entries[k].name {
                Some(m) => Some(m.clone()),
                None => None,
            },
            None => None,
        }
    }

    /// Whether the handle is registered.
    pub fn handle_exists(&self, handle: RectHandle) -> (r: bool)
        ensures
            r == (find_id(self.entries_view(), handle.0) >= 0),
    {
        self.find_entry(handle.0).is_some()
    }

    /// Whether the name is registered.
    pub fn name_exists(&self, name: &str) -> (r: bool)
        ensures
            r == (find_name(self.entries_view(), name@) >= 0),
    {
        self.find_entry_by_name(name).is_some()
    }

    /// All registered handles.
    pub fn all_handles(&self) -> (r: Vec<RectHandle>)
        ensures
            r@.len() == self.entries_view().len(),
            forall|k: int| 0 <= k < r@.len() ==> (#[trigger] r@[k]).0 == self.entries_view()[k].id,
    {
        let mut r: Vec<RectHandle> = Vec::new();
        let mut k: usize = 0;
        while k < self.entries.len()
            invariant
                0 <= k <= self.entries@.len(),
                r@.len() == k,
                forall|q: int| 0 <= q < k ==> (#[trigger] r@[q]).0 == self.entries@[q].id,
            decreases self.entries@.len() - k,
        {
            r.push(RectHandle(self.entries[k].id));
            k += 1;
        }
        r
    }

    /// All registered names.
    pub fn all_names(&self) -> (r: Vec<String>)
        ensures
            forall|k: int| 0 <= k < r@.len() ==> name_in_entries(
                (#[trigger] r@[k])@,
                self.entries_view(),
            ),
    {
        let mut r: Vec<String> = Vec::new();
        let mut k: usize = 0;
        while k < self.entries.len()
            invariant
                0 <= k <= self.entries@.len(),
                forall|q2: int| 0 <= q2 < r@.len() ==> name_in_entries(
                    (#[trigger] r@[q2])@,
                    self.entries@,
                ),
            decreases self.entries@.len() - k,
        {
            match &self.entries[k].name {
                Some(m) => {
                    let ghost pre = r@;
                    r.push(m.clone());
                    proof {
                        assert(self.entries@[k as int].name matches Some(mm) && mm@ == r@[r@.len()
                            - 1]@);
                        assert(name_in_entries(r@[r@.len() - 1]@, self.entries@));
                    }
                },
                None => {},
            }
            k += 1;
        }
        r
    }

    /// Remove every rectangle carrying this handle's id — registration
    /// hands each id out once, so that is the one entry — leaving the
    /// handle unknown afterwards.
    pub fn unregister(&mut self, handle: RectHandle) -> (r: bool)
        ensures
            r == (find_id(old(self).entries_view(), handle.0) >= 0),
            !r ==> *final(self) == *old(self),
            r ==> final(self).entries_view() == old(self).entries_view().filter(
                |e: RegistryEntry| e.id != handle.0,
            ),
            find_id(final(self).entries_view(), handle.0) == -1,
            final(self).tabs_view() == old(self).tabs_view(),
    {
        if self.find_entry(handle.0).is_none() {
            return false;
        }
        let ghost pre = self.entries@;
        let mut kept: Vec<RegistryEntry> = Vec::new();
        let mut k: usize = 0;
        proof {
            assert(kept@ =~= pre.take(0).filter(|e: RegistryEntry| e.id != handle.0)) by {
                reveal(Seq::filter);
                assert(pre.take(0) =~= Seq::<RegistryEntry>::empty());
            }
        }
        while k < self.entries.len()
            invariant
                0 <= k <= self.entries@.len(),
                pre == self.entries@,
                kept@ == pre.take(k as int).filter(|e: RegistryEntry| e.id != handle.0),
            decreases self.entries@.len() - k,
        {
            proof {
                reveal(Seq::filter);
                assert(pre.take(k + 1).drop_last() =~= pre.take(k as int));
                assert(pre.take(k + 1).last() == pre[k as int]);
            }
            if self.entries[k].id != handle.0 {
                kept.push(clone_entry(&self.entries[k]));
            }
            k += 1;
        }
        proof {
            assert(pre.take(pre.len() as int) =~= pre);
        }
        self.entries = kept;
        proof {
            let filtered = pre.filter(|e: RegistryEntry| e.id != handle.0);
            assert forall|q: int| 0 <= q < filtered.len() implies (#[trigger] filtered[q]).id
                != handle.0 by {
                pre.lemma_filter_pred(|e: RegistryEntry| e.id != handle.0, q);
            }
            lemma_find_id_at(filtered, handle.0, filtered.len() as int);
        }
        true
    }

    /// Remove every rectangle carrying this name — registration binds a
    /// name once, so that is the one entry — leaving the name unknown
    /// afterwards.
    pub fn unregister_by_name(&mut self, name: &str) -> (r: bool)
        ensures
            r == (find_name(old(self).entries_view(), name@) >= 0),
            !r ==> *final(self) == *old(self),
            r ==> final(self).entries_view() == old(self).entries_view().filter(
                |e: RegistryEntry| !(e.name matches Some(m) && m@ == name@),
            ),
            find_name(final(self).entries_view(), name@) == -1,
            final(self).tabs_view() == old(self).tabs_view(),
    {
        if self.find_entry_by_name(name).is_none() {
            proof {
                lemma_find_name_ge(self.entries@, name@);
            }
            return false;
        }
        let ghost pre = self.entries@;
        let ghost pred = |e: RegistryEntry| !(e.name matches Some(m) && m@ == name@);
        let mut kept: Vec<RegistryEntry> = Vec::new();
        let mut k: usize = 0;
        proof {
            assert(kept@ =~= pre.take(0).filter(pred)) by {
                reveal(Seq::filter);
                assert(pre.take(0) =~= Seq::<RegistryEntry>::empty());
            }
        }
        while k < self.entries.len()
            invariant
                0 <= k <= self.entries@.len(),
                pre == self.entries@,
                pred == (|e: RegistryEntry| !(e.name matches Some(m) && m@ == name@)),
                kept@ == pre.take(k as int).filter(pred),
            decreases self.entries@.len() - k,
        {
            proof {
                reveal(Seq::filter);
                assert(pre.take(k + 1).drop_last() =~= pre.take(k as int));
                assert(pre.take(k + 1).last() == pre[k as int]);
            }
            let keep = match &self.entries[k].name {
                Some(m) => !crate::text::str_eq(m.as_str(), name),
                None => true,
            };
            proof {
                assert(keep == pred(pre[k as int]));
            }
            if keep {
                kept.push(clone_entry(&self.entries[k]));
            }
            k += 1;
        }
        proof {
            assert(pre.take(pre.len() as int) =~= pre);
        }
        self.entries = kept;
        proof {
            let filtered = pre.filter(pred);
            assert forall|q: int| 0 <= q < filtered.len() implies !((#[trigger] filtered[q]).name
                matches Some(m) && m@ == name@) by {
                pre.lemma_filter_pred(pred, q);
            }
            lemma_find_name_at(filtered, name@, filtered.len() as int);
        }
        true
    }

    /// Set the absolute vertical position of the rectangle behind the
    /// handle.
    pub fn set_y(&mut self, handle: RectHandle, y: u16) -> (r: bool)
        ensures
            r == (find_id(old(self).entries_view(), handle.0) >= 0),
            !r ==> *final(self) == *old(self),
            r ==> (match old(self).spec_metrics(handle.0) {
                Some(m) => final(self).spec_metrics(handle.0) == Some(
                    (RectMetrics { y, ..m }),
                ),
                None => false,
            }),
            forall|id2: u64|
                id2 != handle.0 ==> final(self).spec_metrics(id2) == old(self).spec_metrics(id2),
            forall|n: Seq<char>| final(self).spec_id_of_name(n) == old(self).spec_id_of_name(n),
            final(self).tabs_view() == old(self).tabs_view(),
    {
        match self.find_entry(handle.0) {
            Some(k) => {
                let m = self.entries[k].metrics;
                self.update(handle, RectMetrics { y, ..m })
            },
            None => false,
        }
    }

    /// Set the absolute vertical position of the rectangle behind the
    /// name.
    pub fn set_y_by_name(&mut self, name: &str, y: u16) -> (r: bool)
        ensures
            r == (old(self).spec_id_of_name(name@) is Some),
            !r ==> *final(self) == *old(self),
            old(self).spec_id_of_name(name@) matches Some(id) ==> (match old(self).spec_metrics(
                id,
            ) {
                Some(m) => final(self).spec_metrics(id) == Some((RectMetrics { y, ..m })),
                None => false,
            }),
    {
        match self.find_entry_by_name(name) {
            Some(k) => {
                let id = self.entries[k].id;
                proof {
                    lemma_find_id_ge(self.entries@, id);
                    if find_id(self.entries@, id) == -1 {
                        lemma_find_id_none(self.entries@, id);
                        assert(false);
                    }
                }
                self.set_y(RectHandle(id), y)
            },
            None => false,
        }
    }

    /// Set the absolute horizontal position of the rectangle behind the
    /// handle.
    pub fn set_x(&mut self, handle: RectHandle, x: u16) -> (r: bool)
        ensures
            r == (find_id(old(self).entries_view(), handle.0) >= 0),
            !r ==> *final(self) == *old(self),
            r ==> (match old(self).spec_metrics(handle.0) {
                Some(m) => final(self).spec_metrics(handle.0) == Some(
                    (RectMetrics { x, ..m }),
                ),
                None => false,
            }),
            forall|id2: u64|
                id2 != handle.0 ==> final(self).spec_metrics(id2) == old(self).spec_metrics(id2),
            forall|n: Seq<char>| final(self).spec_id_of_name(n) == old(self).spec_id_of_name(n),
            final(self).tabs_view() == old(self).tabs_view(),
    {
        match self.find_entry(handle.0) {
            Some(k) => {
                let m = self.entries[k].metrics;
                self.update(handle, RectMetrics { x, ..m })
            },
            None => false,
        }
    }

    /// Set the absolute horizontal position of the rectangle behind the
    /// name.
    pub fn set_x_by_name(&mut self, name: &str, x: u16) -> (r: bool)
        ensures
            r == (old(self).spec_id_of_name(name@) is Some),
            !r ==> *final(self) == *old(self),
            old(self).spec_id_of_name(name@) matches Some(id) ==> (match old(self).spec_metrics(
                id,
            ) {
                Some(m) => final(self).spec_metrics(id) == Some((RectMetrics { x, ..m })),
                None => false,
            }),
    {
        match self.find_entry_by_name(name) {
            Some(k) => {
                let id = self.entries[k].id;
                proof {
                    lemma_find_id_ge(self.entries@, id);
                    if find_id(self.entries@, id) == -1 {
                        lemma_find_id_none(self.entries@, id);
                        assert(false);
                    }
                }
                self.set_x(RectHandle(id), x)
            },
            None => false,
        }
    }

    /// Move the rectangle vertically by a signed offset, saturating at
    /// the screen edges.
    pub fn offset_y(&mut self, handle: RectHandle, offset: i16) -> (r: bool)
        ensures
            r == (find_id(old(self).entries_view(), handle.0) >= 0),
            !r ==> *final(self) == *old(self),
            r ==> (match old(self).spec_metrics(handle.0) {
                Some(m) => final(self).spec_metrics(handle.0) == Some(
                    (RectMetrics { y: shift_u16(m.y, offset as int), ..m }),
                ),
                None => false,
            }),
            forall|id2: u64|
                id2 != handle.0 ==> final(self).spec_metrics(id2) == old(self).spec_metrics(id2),
            forall|n: Seq<char>| final(self).spec_id_of_name(n) == old(self).spec_id_of_name(n),
            final(self).tabs_view() == old(self).tabs_view(),
    {
        match self.find_entry(handle.0) {
            Some(k) => {
                let m = self.entries[k].metrics;
                let y = shift_coord(m.y, offset);
                self.update(handle, RectMetrics { y, ..m })
            },
            None => false,
        }
    }

    /// Move the rectangle named `name` vertically by a signed offset.
    pub fn offset_y_by_name(&mut self, name: &str, offset: i16) -> (r: bool)
        ensures
            r == (old(self).spec_id_of_name(name@) is Some),
            !r ==> *final(self) == *old(self),
            old(self).spec_id_of_name(name@) matches Some(id) ==> (match old(self).spec_metrics(
                id,
            ) {
                Some(m) => final(self).spec_metrics(id) == Some(
                    (RectMetrics { y: shift_u16(m.y, offset as int), ..m }),
                ),
                None => false,
            }),
    {
        match self.find_entry_by_name(name) {
            Some(k) => {
                let id = self.entries[k].id;
                proof {
                    lemma_find_id_ge(self.entries@, id);
                    if find_id(self.entries@, id) == -1 {
                        lemma_find_id_none(self.entries@, id);
                        assert(false);
                    }
                }
                self.offset_y(RectHandle(id), offset)
            },
            None => false,
        }
    }

    /// Move the rectangle horizontally by a signed offset, saturating at
    /// the screen edges.
    pub fn offset_x(&mut self, handle: RectHandle, offset: i16) -> (r: bool)
        ensures
            r == (find_id(old(self).entries_view(), handle.0) >= 0),
            !r ==> *final(self) == *old(self),
            r ==> (match old(self).spec_metrics(handle.0) {
                Some(m) => final(self).spec_metrics(handle.0) == Some(
                    (RectMetrics { x: shift_u16(m.x, offset as int), ..m }),
                ),
                None => false,
            }),
            forall|id2: u64|
                id2 != handle.0 ==> final(self).spec_metrics(id2) == old(self).spec_metrics(id2),
            forall|n: Seq<char>| final(self).spec_id_of_name(n) == old(self).spec_id_of_name(n),
            final(self).tabs_view() == old(self).tabs_view(),
    {
        match self.find_entry(handle.0) {
            Some(k) => {
                let m = self.entries[k].metrics;
                let x = shift_coord(m.x, offset);
                self.update(handle, RectMetrics { x, ..m })
            },
            None => false,
        }
    }

    /// Move the rectangle named `name` horizontally by a signed offset.
    pub fn offset_x_by_name(&mut self, name: &str, offset: i16) -> (r: bool)
        ensures
            r == (old(self).spec_id_of_name(name@) is Some),
            !r ==> *final(self) == *old(self),
            old(self).spec_id_of_name(name@) matches Some(id) ==> (match old(self).spec_metrics(
                id,
            ) {
                Some(m) => final(self).spec_metrics(id) == Some(
                    (RectMetrics { x: shift_u16(m.x, offset as int), ..m }),
                ),
                None => false,
            }),
    {
        match self.find_entry_by_name(name) {
            Some(k) => {
                let id = self.entries[k].id;
                proof {
                    lemma_find_id_ge(self.entries@, id);
                    if find_id(self.entries@, id) == -1 {
                        lemma_find_id_none(self.entries@, id);
                        assert(false);
                    }
                }
                self.offset_x(RectHandle(id), offset)
            },
            None => false,
        }
    }

    /// Store tab-bar state for a handle, replacing what was there.
    pub fn set_tab_bar_state(&mut self, handle: RectHandle, state: TabBarState)
        ensures
            find_tab(final(self).tabs_view(), handle.0) >= 0,
            final(self).tabs_view()[find_tab(final(self).tabs_view(), handle.0)].1 == state,
            final(self).entries_view() == old(self).entries_view(),
    {
        let ghost pre = self.tab_bar_states@;
        match self.find_tab_entry(handle.0) {
            Some(k) => {
                self.tab_bar_states.set(k, (handle.0, state));
                proof {
                    assert(forall|q: int| 0 <= q < k ==> self.tab_bar_states@[q] == pre[q]);
                    lemma_find_tab_at(self.tab_bar_states@, handle.0, k as int);
                }
            },
            None => {
                proof {
                    lemma_find_tab_none(self.tab_bar_states@, handle.0);
                }
                self.tab_bar_states.push((handle.0, state));
                proof {
                    lemma_find_tab_at(
                        self.tab_bar_states@,
                        handle.0,
                        self.tab_bar_states@.len() - 1,
                    );
                }
            },
        }
    }

    /// The tab-bar state stored for a handle, if any.
    pub fn get_tab_bar_state(&self, handle: RectHandle) -> (r: Option<&TabBarState>)
        ensures
            match self.spec_tab_state(handle.0) {
                Some(st) => r matches Some(rr) && *rr == st,
                None => r is None,
            },
    {
        match self.find_tab_entry(handle.0) {
            Some(k) => Some(&self.tab_bar_states[k].1),
            None => None,
        }
    }

    /// Set the active tab index of a tab bar; fails exactly when the
    /// handle has no tab bar or the index runs past the tab count.
    pub fn set_active_tab(&mut self, handle: RectHandle, active_index: usize) -> (r: bool)
        ensures
            r == (match old(self).spec_tab_state(handle.0) {
                Some(st) => active_index < st.tab_count,
                None => false,
            }),
            !r ==> *final(self) == *old(self),
            r ==> (match (old(self).spec_tab_state(handle.0), final(self).spec_tab_state(
                handle.0,
            )) {
                (Some(st0), Some(st1)) => st1 == (TabBarState {
                    active_tab_index: active_index,
                    ..st0
                }) && active_index < st0.tab_count,
                _ => false,
            }),
    {
        match self.find_tab_entry(handle.0) {
            Some(k) => {
                let count = self.tab_bar_states[k].1.tab_count;
                if active_index < count {
                    let (id0, mut st) = self.tab_bar_states.remove(k);
                    st.active_tab_index = active_index;
                    self.tab_bar_states.insert(k, (id0, st));
                    proof {
                        assert(self.tab_bar_states@ =~= old(self).tab_bar_states@.update(
                            k as int,
                            self.tab_bar_states@[k as int],
                        ));
                        assert(forall|q: int|
                            0 <= q < k ==> self.tab_bar_states@[q] == old(
                                self,
                            ).tab_bar_states@[q]);
                        assert(self.tab_bar_states@[k as int].0 == handle.0);
                        lemma_find_tab_at(self.tab_bar_states@, handle.0, k as int);
                    }
                    true
                } else {
                    false
                }
            },
            None => false,
        }
    }

    /// Step the active tab left or right, wrapping around, unless the
    /// last navigation lies less than the debounce span in the past. The
    /// clock decides whether the step is debounced; whatever it returns,
    /// a `true` result means the active index moved one step in the asked
    /// direction and a `false` result means nothing changed.
    pub fn navigate_tab(&mut self, handle: RectHandle, direction: i32) -> (r: bool)
        ensures
            !r ==> *final(self) == *old(self),
            r ==> (match (old(self).spec_tab_state(handle.0), final(self).spec_tab_state(
                handle.0,
            )) {
                (Some(st0), Some(st1)) => {
                    &&& st0.tab_count > 0
                    &&& st1.tab_count == st0.tab_count
                    &&& st1.tab_configs == st0.tab_configs
                    &&& st1.active_tab_index == nav_index_spec(
                        st0.active_tab_index as int,
                        st0.tab_count as int,
                        direction as int,
                    )
                    &&& st1.last_navigation_time is Some
                },
                _ => false,
            }),
    {
        let now = crate::clock::now_millis();
        match self.find_tab_entry(handle.0) {
            Some(k) => {
                let debounced = match self.tab_bar_states[k].1.last_navigation_time {
                    Some(last) => now < last || now - last < 50,
                    None => false,
                };
                let count = self.tab_bar_states[k].1.tab_count;
                if debounced || count == 0 {
                    return false;
                }
                let (id0, mut st) = self.tab_bar_states.remove(k);
                let current = st.active_tab_index;
                let new_index = if direction < 0 {
                    if current > 0 {
                        current - 1
                    } else {
                        count - 1
                    }
                } else {
                    let bumped = (current as u128 + 1) % (count as u128);
                    proof {
                        assert(bumped < count as u128);
                    }
                    bumped as usize
                };
                st.active_tab_index = new_index;
                st.last_navigation_time = Some(now);
                self.tab_bar_states.insert(k, (id0, st));
                proof {
                    assert(self.tab_bar_states@ =~= old(self).tab_bar_states@.update(
                        k as int,
                        self.tab_bar_states@[k as int],
                    ));
                    assert(forall|q: int|
                        0 <= q < k ==> self.tab_bar_states@[q] == old(self).tab_bar_states@[q]);
                    assert(self.tab_bar_states@[k as int].0 == handle.0);
                    lemma_find_tab_at(self.tab_bar_states@, handle.0, k as int);
                }
                true
            },
            None => false,
        }
    }

    /// Set the coloring state of one tab; fails exactly when the handle
    /// has no tab bar or the index runs past the tab list.
    pub fn set_tab_state(&mut self, handle: RectHandle, tab_index: usize, state: TabState) -> (r:
        bool)
        ensures
            r == (match old(self).spec_tab_state(handle.0) {
                Some(st) => tab_index < st.tab_configs@.len(),
                None => false,
            }),
            !r ==> *final(self) == *old(self),
            r ==> (match (old(self).spec_tab_state(handle.0), final(self).spec_tab_state(
                handle.0,
            )) {
                (Some(st0), Some(st1)) => {
                    &&& tab_index < st0.tab_configs@.len()
                    &&& st1.tab_configs@ == st0.tab_configs@.update(
                        tab_index as int,
                        (TabConfigData { state, ..st0.tab_configs@[tab_index as int] }),
                    )
                    &&& st1.active_tab_index == st0.active_tab_index
                    &&& st1.tab_count == st0.tab_count
                },
                _ => false,
            }),
    {
        match self.find_tab_entry(handle.0) {
            Some(k) => {
                if tab_index < self.tab_bar_states[k].1.tab_configs.len() {
                    let (id0, mut st) = self.tab_bar_states.remove(k);
                    let mut tc = st.tab_configs.remove(tab_index);
                    tc.state = state;
                    st.tab_configs.insert(tab_index, tc);
                    proof {
                        assert(st.tab_configs@ =~= old(self).tab_bar_states@[k as int].1.tab_configs@.update(
                            tab_index as int,
                            st.tab_configs@[tab_index as int],
                        ));
                    }
                    self.tab_bar_states.insert(k, (id0, st));
                    proof {
                        assert(self.tab_bar_states@ =~= old(self).tab_bar_states@.update(
                            k as int,
                            self.tab_bar_states@[k as int],
                        ));
                        assert(forall|q: int|
                            0 <= q < k ==> self.tab_bar_states@[q] == old(
                                self,
                            ).tab_bar_states@[q]);
                        assert(self.tab_bar_states@[k as int].0 == handle.0);
                        lemma_find_tab_at(self.tab_bar_states@, handle.0, k as int);
                    }
                    true
                } else {
                    false
                }
            },
            None => false,
        }
    }

    /// The coloring state of one tab, if the handle and index exist.
    pub fn get_tab_state(&self, handle: RectHandle, tab_index: usize) -> (r: Option<TabState>)
        ensures
            r == (match self.spec_tab_state(handle.0) {
                Some(st) => if tab_index < st.tab_configs@.len() {
                    Some(st.tab_configs@[tab_index as int].state)
                } else {
                    None::<TabState>
                },
                None => None::<TabState>,
            }),
    {
        match self.find_tab_entry(handle.0) {
            Some(k) => {
                if tab_index < self.tab_bar_states[k].1.tab_configs.len() {
                    Some(self.tab_bar_states[k].1.tab_configs[tab_index].state)
                } else {
                    None
                }
            },
            None => None,
        }
    }

    /// The active tab index of a tab bar, if the handle has one.
    pub fn get_active_tab(&self, handle: RectHandle) -> (r: Option<usize>)
        ensures
            r == (match self.spec_tab_state(handle.0) {
                Some(st) => Some(st.active_tab_index),
                None => None::<usize>,
            }),
    {
        match self.find_tab_entry(handle.0) {
            Some(k) => Some(self.tab_bar_states[k].1.active_tab_index),
            None => None,
        }
    }

    /// Forget every rectangle and tab-bar state and restart the ids.
    pub fn clear(&mut self)
        ensures
            final(self).entries_view().len() == 0,
            final(self).tabs_view().len() == 0,
    {
        self.entries.clear();
        self.tab_bar_states.clear();
        self.next_id = 1;
    }
}

impl Default for RectRegistry {
    /// The default registry is empty.
    fn default() -> (r: RectRegistry)
        ensures
            r.entries_view().len() == 0,
            r.tabs_view().len() == 0,
    {
        RectRegistry::new()
    }
}

/// A coordinate moved by a signed offset, clamped to the type's range.
pub open spec fn shift_u16(c: u16, offset: int) -> u16 {
    if c + offset > 0xffff {
        0xffff
    } else if c + offset < 0 {
        0
    } else {
        (c + offset) as u16
    }
}

/// Move a coordinate by a signed offset, saturating.
pub fn shift_coord(c: u16, offset: i16) -> (r: u16)
    ensures
        r == shift_u16(c, offset as int),
{
    if offset >= 0 {
        let mag = offset as u16;
        if c <= u16::MAX - mag {
            c + mag
        } else {
            u16::MAX
        }
    } else {
        let wide: i32 = offset as i32;
        let mag = (0 - wide) as u16;
        if c >= mag {
            c - mag
        } else {
            0
        }
    }
}

/// Where one navigation step lands: left decrements and wraps to the
/// last tab, right increments modulo the tab count.
pub open spec fn nav_index_spec(current: int, count: int, direction: int) -> int
    recommends
        count > 0,
{
    if direction < 0 {
        if current > 0 {
            current - 1
        } else {
            count - 1
        }
    } else {
        if count > 0 {
            (current + 1) % count
        } else {
            0
        }
    }
}

proof fn lemma_find_tab_ge(s: Seq<(u64, TabBarState)>, id: u64)
    ensures
        find_tab(s, id) >= -1,
    decreases s.len(),
{
    if s.len() == 0 {
    } else if s[0].0 == id {
    } else {
        lemma_find_tab_ge(s.skip(1), id);
    }
}

/// If no tab entry carries the id, the whole list misses it.
proof fn lemma_find_tab_none(s: Seq<(u64, TabBarState)>, id: u64)
    requires
        find_tab(s, id) == -1,
    ensures
        forall|q: int| 0 <= q < s.len() ==> (#[trigger] s[q]).0 != id,
    decreases s.len(),
{
    if s.len() == 0 {
    } else {
        lemma_find_tab_ge(s.skip(1), id);
        lemma_find_tab_none(s.skip(1), id);
        assert(forall|q: int| 1 <= q < s.len() ==> s[q] == s.skip(1)[q - 1]);
    }
}

proof fn lemma_find_id_ge(s: Seq<RegistryEntry>, id: u64)
    ensures
        find_id(s, id) >= -1,
    decreases s.len(),
{
    if s.len() == 0 {
    } else if s[0].id == id {
    } else {
        lemma_find_id_ge(s.skip(1), id);
    }
}

/// Copy one registry entry field by field.
fn clone_entry(e: &RegistryEntry) -> (r: RegistryEntry)
    ensures
        r == *e,
{
    RegistryEntry {
        id: e.id,
        name: match &e.name {
            Some(s) => Some(s.clone()),
            None => None,
        },
        metrics: e.metrics,
    }
}

/// If no entry carries the id, the whole list misses it.
proof fn lemma_find_id_none(s: Seq<RegistryEntry>, id: u64)
    requires
        find_id(s, id) == -1,
    ensures
        forall|q: int| 0 <= q < s.len() ==> (#[trigger] s[q]).id != id,
    decreases s.len(),
{
    if s.len() == 0 {
    } else {
        assert(s[0].id != id);
        lemma_find_id_ge(s.skip(1), id);
        lemma_find_id_none(s.skip(1), id);
        assert(forall|q: int| 1 <= q < s.len() ==> s[q] == s.skip(1)[q - 1]);
    }
}

/// A found index carries the id.
proof fn lemma_find_id_hit(s: Seq<RegistryEntry>, id: u64)
    requires
        find_id(s, id) >= 0,
    ensures
        find_id(s, id) < s.len(),
        s[find_id(s, id)].id == id,
    decreases s.len(),
{
    if s.len() == 0 {
    } else if s[0].id == id {
    } else {
        lemma_find_id_hit(s.skip(1), id);
    }
}

/// Updating the entry that `find_id` points to leaves `find_id` there.
proof fn lemma_find_id_stable_update(s: Seq<RegistryEntry>, id: u64, k: int)
    requires
        0 <= k < s.len(),
        s[k].id == id,
        forall|q: int| 0 <= q < k ==> (#[trigger] s[q]).id != id,
    ensures
        find_id(s, id) == k,
{
    lemma_find_id_at(s, id, k);
}

} // verus!
