//! A command palette: fuzzy matching of a query against command labels,
//! scored and ordered results, and a selection that moves through them.

use vstd::prelude::*;
use crate::text::{ascii_lower, chars_of, to_ascii_lower};

verus! {

// ---------------------------------------------------------------------------
// Fuzzy matching
// ---------------------------------------------------------------------------

/// The longest label scored: scores then fit 64 bits.
pub const MAX_LABEL_CHARS: u64 = 0x0100_0000_0000_0000;

/// `s` with ASCII letters lowercased.
pub open spec fn lower(s: Seq<char>) -> Seq<char> {
    s.map_values(|c: char| ascii_lower(c))
}

/// Matching the query `q` against the first `n` characters of `t`, taking
/// each character that is the next query character: how many query
/// characters were matched, and where.
pub open spec fn greedy(q: Seq<char>, t: Seq<char>, n: int) -> (int, Seq<int>)
    decreases n,
{
    if n <= 0 {
        (0, Seq::empty())
    } else {
        let (qi, ms) = greedy(q, t, n - 1);
        if qi < q.len() && t[n - 1] == q[qi] {
            (qi + 1, ms.push(n - 1))
        } else {
            (qi, ms)
        }
    }
}

/// Position `i` of `t` starts a word: it is the first, or follows a space,
/// `_` or `-`.
pub open spec fn starts_word(t: Seq<char>, i: int) -> bool {
    i == 0 || t[i - 1] == ' ' || t[i - 1] == '_' || t[i - 1] == '-'
}

/// Ten points for each match that starts a word.
pub open spec fn word_bonus(t: Seq<char>, ms: Seq<int>) -> int
    decreases ms.len(),
{
    if ms.len() == 0 {
        0
    } else {
        word_bonus(t, ms.drop_last()) + if starts_word(t, ms.last()) {
            10int
        } else {
            0int
        }
    }
}

/// Five points for each match right after the previous one.
pub open spec fn run_bonus(ms: Seq<int>) -> int
    decreases ms.len(),
{
    if ms.len() < 2 {
        0
    } else {
        run_bonus(ms.drop_last()) + if ms.last() == ms[ms.len() - 2] + 1 {
            5int
        } else {
            0int
        }
    }
}

/// The score of the matches `ms` of query `q` in target `t` (both
/// lowercased): word starts and runs earn points, matching the whole target
/// earns twenty, half the target's length is taken off, and the share of
/// the query matched, in tenths, is added.
pub open spec fn match_score(q: Seq<char>, t: Seq<char>, ms: Seq<int>) -> int {
    word_bonus(t, ms) + run_bonus(ms) + (if ms.len() == t.len() {
        20int
    } else {
        0int
    }) - t.len() as int / 2 + (ms.len() * 10) as int / q.len() as int
}

/// The fuzzy match of `query` in `target`, ignoring ASCII case: nothing when
/// some query character cannot be matched in order; otherwise the score and
/// the positions matched. An empty query matches with score zero.
pub open spec fn fuzzy(query: Seq<char>, target: Seq<char>) -> Option<(int, Seq<int>)> {
    if query.len() == 0 {
        Some((0, Seq::empty()))
    } else {
        let q = lower(query);
        let t = lower(target);
        let (qi, ms) = greedy(q, t, t.len() as int);
        if qi < q.len() {
            None
        } else {
            Some((match_score(q, t, ms), ms))
        }
    }
}

/// The positions, as integers.
pub open spec fn positions(v: Seq<usize>) -> Seq<int> {
    v.map_values(|i: usize| i as int)
}

fn lower_chars(s: &str) -> (v: Vec<char>)
    ensures
        v@ == lower(s@),
{
    let cs = chars_of(s);
    let mut v: Vec<char> = Vec::new();
    let mut i: usize = 0;
    while i < cs.len()
        invariant
            i <= cs@.len(),
            cs@ == s@,
            v@ == lower(cs@.subrange(0, i as int)),
        decreases cs@.len() - i,
    {
        v.push(to_ascii_lower(cs[i]));
        assert(lower(cs@.subrange(0, i + 1)) =~= lower(cs@.subrange(0, i as int)).push(ascii_lower(cs@[i as int])));
        i += 1;
    }
    assert(cs@.subrange(0, cs@.len() as int) =~= cs@);
    v
}

proof fn lemma_greedy_shape(q: Seq<char>, t: Seq<char>, n: int)
    requires
        0 <= n <= t.len(),
    ensures
        ({
            let (qi, ms) = greedy(q, t, n);
            &&& 0 <= qi <= q.len()
            &&& ms.len() == qi
            &&& qi <= n
            &&& forall|k: int| 0 <= k < ms.len() ==> 0 <= #[trigger] ms[k] < n
            &&& forall|a: int, b: int| 0 <= a < b < ms.len() ==> ms[a] < ms[b]
        }),
    decreases n,
{
    if n > 0 {
        lemma_greedy_shape(q, t, n - 1);
    }
}

proof fn lemma_bonus_bounds(t: Seq<char>, ms: Seq<int>)
    requires
        forall|k: int| 0 <= k < ms.len() ==> 0 <= #[trigger] ms[k] < t.len(),
    ensures
        0 <= word_bonus(t, ms) <= 10 * ms.len(),
        0 <= run_bonus(ms) <= 5 * ms.len(),
    decreases ms.len(),
{
    if ms.len() > 0 {
        lemma_bonus_bounds(t, ms.drop_last());
    }
}

/// The fuzzy match of `query` in `target` (see `fuzzy`).
pub fn fuzzy_score(query: &str, target: &str) -> (r: Option<(i64, Vec<usize>)>)
    requires
        target@.len() <= MAX_LABEL_CHARS,
    ensures
        match r {
            Some((s, ms)) => fuzzy(query@, target@) == Some((s as int, positions(ms@))),
            None => fuzzy(query@, target@) is None,
        },
{
    let q = lower_chars(query);
    if q.len() == 0 {
        let v: Vec<usize> = Vec::new();
        assert(positions(v@) =~= Seq::<int>::empty());
        return Some((0, v));
    }
    let t = lower_chars(target);
    let mut matches: Vec<usize> = Vec::new();
    let mut qi: usize = 0;
    let mut ti: usize = 0;
    assert(positions(matches@) =~= Seq::<int>::empty());
    while ti < t.len()
        invariant
            ti <= t@.len(),
            t@.len() <= MAX_LABEL_CHARS,
            (qi as int, positions(matches@)) == greedy(q@, t@, ti as int),
        decreases t@.len() - ti,
    {
        proof {
            lemma_greedy_shape(q@, t@, ti as int);
        }
        if qi < q.len() && t[ti] == q[qi] {
            let ghost before = positions(matches@);
            matches.push(ti);
            assert(positions(matches@) =~= before.push(ti as int));
            qi += 1;
        }
        ti += 1;
    }
    proof {
        lemma_greedy_shape(q@, t@, t@.len() as int);
    }
    if qi < q.len() {
        return None;
    }
    let ghost ms = positions(matches@);
    proof {
        lemma_bonus_bounds(t@, ms);
    }
    let mut score: i64 = 0;
    let mut k: usize = 0;
    while k < matches.len()
        invariant
            k <= matches@.len(),
            ms == positions(matches@),
            ms.len() <= t@.len(),
            t@.len() <= MAX_LABEL_CHARS,
            forall|j: int| 0 <= j < ms.len() ==> 0 <= #[trigger] ms[j] < t@.len(),
            score as int == word_bonus(t@, ms.subrange(0, k as int)),
        decreases matches@.len() - k,
    {
        proof {
            lemma_bonus_bounds(t@, ms.subrange(0, k as int));
            assert(ms.subrange(0, k + 1).drop_last() =~= ms.subrange(0, k as int));
        }
        let mi = matches[k];
        assert(ms[k as int] == mi as int);
        if mi == 0 || t[mi - 1] == ' ' || t[mi - 1] == '_' || t[mi - 1] == '-' {
            score = score + 10;
        }
        k += 1;
    }
    assert(ms.subrange(0, ms.len() as int) =~= ms);
    let mut j: usize = 1;
    let ghost words = score as int;
    while j < matches.len()
        invariant
            1 <= j,
            j <= matches@.len() || matches@.len() == 0,
            ms == positions(matches@),
            ms.len() <= t@.len(),
            t@.len() <= MAX_LABEL_CHARS,
            forall|i: int| 0 <= i < ms.len() ==> 0 <= #[trigger] ms[i] < t@.len(),
            words == word_bonus(t@, ms),
            0 <= words <= 10 * ms.len(),
            score as int == words + run_bonus(ms.subrange(0, j as int)),
        decreases matches@.len() - j,
    {
        proof {
            lemma_bonus_bounds(t@, ms.subrange(0, j as int));
            assert(ms.subrange(0, j + 1).drop_last() =~= ms.subrange(0, j as int));
        }
        assert(ms[j - 1] == matches@[j - 1] as int);
        if matches[j] == matches[j - 1] + 1 {
            score = score + 5;
        }
        j += 1;
    }
    proof {
        if matches@.len() >= 1 {
            assert(ms.subrange(0, j as int) =~= ms);
        } else {
            assert(ms.subrange(0, 1) =~= ms.subrange(0, 0));
        }
        lemma_bonus_bounds(t@, ms);
    }
    let n = matches.len();
    if n == t.len() {
        score = score + 20;
    }
    score = score - (t.len() / 2) as i64;
    let ratio = ((n as u64) * 10 / (q.len() as u64)) as i64;
    score = score + ratio;
    Some((score, matches))
}

// ---------------------------------------------------------------------------
// Commands and results
// ---------------------------------------------------------------------------

/// A command shown in the palette.
#[derive(Debug, Clone)]
pub struct PaletteCommand {
    pub label: String,
    pub description: String,
    pub category: String,
    pub shortcut: Option<String>,
    pub enabled: bool,
}

impl PaletteCommand {
    /// An enabled command labelled `label`, with no description, category or shortcut.
    pub fn new(label: &str) -> (c: PaletteCommand)
        ensures
            c.label@ == label@,
            c.description@.len() == 0,
            c.category@.len() == 0,
            c.shortcut is None,
            c.enabled,
    {
        PaletteCommand {
            label: String::from_str(label),
            description: String::new(),
            category: String::new(),
            shortcut: None,
            enabled: true,
        }
    }

    /// This command with a description.
    pub fn with_description(self, desc: &str) -> (c: PaletteCommand)
        ensures
            c.description@ == desc@,
            c.label == self.label,
            c.category == self.category,
            c.shortcut == self.shortcut,
            c.enabled == self.enabled,
    {
        let mut c = self;
        c.description = String::from_str(desc);
        c
    }

    /// This command in a category.
    pub fn with_category(self, cat: &str) -> (c: PaletteCommand)
        ensures
            c.category@ == cat@,
            c.label == self.label,
            c.description == self.description,
            c.shortcut == self.shortcut,
            c.enabled == self.enabled,
    {
        let mut c = self;
        c.category = String::from_str(cat);
        c
    }

    /// This command with a shortcut hint.
    pub fn with_shortcut(self, sc: &str) -> (c: PaletteCommand)
        ensures
            c.shortcut matches Some(s) && s@ == sc@,
            c.label == self.label,
            c.description == self.description,
            c.category == self.category,
            c.enabled == self.enabled,
    {
        let mut c = self;
        c.shortcut = Some(String::from_str(sc));
        c
    }

    /// An equal copy.
    pub fn duplicate(&self) -> (c: PaletteCommand)
        ensures
            c == *self,
    {
        PaletteCommand {
            label: self.label.clone(),
            description: self.description.clone(),
            category: self.category.clone(),
            shortcut: match &self.shortcut {
                Some(s) => Some(s.clone()),
                None => None,
            },
            enabled: self.enabled,
        }
    }
}

/// A command that matched, its score and the label positions matched.
#[derive(Debug, Clone)]
pub struct SearchResult {
    pub command: PaletteCommand,
    pub score: i64,
    pub matches: Vec<usize>,
}

/// A result as a command, a score and positions.
pub open spec fn result_view(r: SearchResult) -> (PaletteCommand, int, Seq<int>) {
    (r.command, r.score as int, positions(r.matches@))
}

/// Each result as a command, a score and positions.
pub open spec fn results_view(v: Seq<SearchResult>) -> Seq<(PaletteCommand, int, Seq<int>)> {
    v.map_values(|r: SearchResult| result_view(r))
}

/// The enabled commands that match `query`, in order, with their scores
/// and positions (score zero and no position for an empty query).
pub open spec fn candidates(cs: Seq<PaletteCommand>, query: Seq<char>) -> Seq<(PaletteCommand, int, Seq<int>)>
    decreases cs.len(),
{
    if cs.len() == 0 {
        Seq::empty()
    } else {
        let r = candidates(cs.drop_last(), query);
        let c = cs.last();
        if !c.enabled {
            r
        } else {
            match fuzzy(query, c.label@) {
                Some((s, ms)) => r.push((c, s, ms)),
                None => r,
            }
        }
    }
}

/// Inserts `x` after every result scoring at least as much.
pub open spec fn insert_by_score(s: Seq<(PaletteCommand, int, Seq<int>)>, x: (PaletteCommand, int, Seq<int>)) -> Seq<
    (PaletteCommand, int, Seq<int>),
>
    decreases s.len(),
{
    if s.len() == 0 {
        seq![x]
    } else if s.last().1 >= x.1 {
        s.push(x)
    } else {
        insert_by_score(s.drop_last(), x).push(s.last())
    }
}

/// The results stably sorted by decreasing score.
pub open spec fn sort_by_score(s: Seq<(PaletteCommand, int, Seq<int>)>) -> Seq<(PaletteCommand, int, Seq<int>)>
    decreases s.len(),
{
    if s.len() == 0 {
        Seq::empty()
    } else {
        insert_by_score(sort_by_score(s.drop_last()), s.last())
    }
}

/// The results of `query` over `cs`: the enabled commands in order for an
/// empty query; otherwise the matching ones, best score first, ties in order.
pub open spec fn palette_results(cs: Seq<PaletteCommand>, query: Seq<char>) -> Seq<(PaletteCommand, int, Seq<int>)> {
    if query.len() == 0 {
        candidates(cs, query)
    } else {
        sort_by_score(candidates(cs, query))
    }
}

/// The selection kept in range: the last result when it was past the end
/// (zero when there is none).
pub open spec fn clamp_selection(selected: int, n: int) -> int {
    if selected >= n {
        if n > 0 {
            n - 1
        } else {
            0
        }
    } else {
        selected
    }
}

/// A searchable list of commands with a current query, its results and a
/// selected result.
#[derive(Debug)]
pub struct CommandPalette {
    /// Every command, enabled or not.
    pub commands: Vec<PaletteCommand>,
    query: String,
    selected: usize,
    results: Vec<SearchResult>,
}

impl CommandPalette {
    /// The commands.
    pub closed spec fn command_seq(&self) -> Seq<PaletteCommand> {
        self.commands@
    }

    /// The current query.
    pub closed spec fn query_text(&self) -> Seq<char> {
        self.query@
    }

    /// The index of the selected result.
    pub closed spec fn selection(&self) -> int {
        self.selected as int
    }

    /// The current results.
    pub closed spec fn result_seq(&self) -> Seq<(PaletteCommand, int, Seq<int>)> {
        results_view(self.results@)
    }

    /// Every label is short enough to be scored.
    pub closed spec fn wf(&self) -> bool {
        forall|i: int| 0 <= i < self.commands@.len() ==> (#[trigger] self.commands@[i]).label@.len() <= MAX_LABEL_CHARS
    }

    /// An empty palette.
    pub fn new() -> (p: CommandPalette)
        ensures
            p.wf(),
            p.command_seq().len() == 0,
            p.query_text().len() == 0,
            p.selection() == 0,
            p.result_seq().len() == 0,
    {
        let p = CommandPalette { commands: Vec::new(), query: String::new(), selected: 0, results: Vec::new() };
        assert(p.result_seq() =~= Seq::empty());
        p
    }

    fn update_results(&mut self)
        requires
            old(self).wf(),
        ensures
            final(self).wf(),
            final(self).commands == old(self).commands,
            final(self).query == old(self).query,
            final(self).result_seq() == palette_results(old(self).commands@, old(self).query@),
            final(self).selection() == clamp_selection(
                old(self).selected as int,
                palette_results(old(self).commands@, old(self).query@).len() as int,
            ),
    {
        let mut found: Vec<SearchResult> = Vec::new();
        let mut i: usize = 0;
        assert(results_view(found@) =~= Seq::empty());
        assert(self.commands@.subrange(0, 0) =~= Seq::<PaletteCommand>::empty());
        while i < self.commands.len()
            invariant
                i <= self.commands@.len(),
                self.wf(),
                self.commands == old(self).commands,
                self.query == old(self).query,
                self.selected == old(self).selected,
                results_view(found@) == candidates(self.commands@.subrange(0, i as int), self.query@),
            decreases self.commands@.len() - i,
        {
            let c = &self.commands[i];
            assert(self.commands@.subrange(0, i + 1).drop_last() =~= self.commands@.subrange(0, i as int));
            if c.enabled {
                assert(c.label@.len() <= MAX_LABEL_CHARS);
                match fuzzy_score(self.query.as_str(), c.label.as_str()) {
                    Some((score, matches)) => {
                        let ghost before = results_view(found@);
                        found.push(SearchResult { command: c.duplicate(), score, matches });
                        assert(results_view(found@) =~= before.push((*c, score as int, positions(matches@))));
                    },
                    None => {},
                }
            }
            i += 1;
        }
        assert(self.commands@.subrange(0, self.commands@.len() as int) =~= self.commands@);
        if self.query.as_str().unicode_len() == 0 {
            self.results = found;
        } else {
            self.results = sort_results(found);
        }
        let n = self.results.len();
        if self.selected >= n {
            self.selected = if n > 0 {
                n - 1
            } else {
                0
            };
        }
    }

    /// Adds a command and refreshes the results.
    pub fn add(&mut self, command: PaletteCommand)
        requires
            old(self).wf(),
            command.label@.len() <= MAX_LABEL_CHARS,
        ensures
            final(self).wf(),
            final(self).command_seq() == old(self).command_seq().push(command),
            final(self).query_text() == old(self).query_text(),
            final(self).result_seq() == palette_results(final(self).command_seq(), final(self).query_text()),
            final(self).selection() == clamp_selection(old(self).selection(), final(self).result_seq().len() as int),
    {
        self.commands.push(command);
        self.update_results();
    }

    /// Removes every command, result and the query, and selects the first result.
    pub fn clear(&mut self)
        ensures
            final(self).wf(),
            final(self).command_seq().len() == 0,
            final(self).query_text().len() == 0,
            final(self).selection() == 0,
            final(self).result_seq().len() == 0,
    {
        self.commands.clear();
        self.results.clear();
        self.query = String::new();
        self.selected = 0;
        assert(self.result_seq() =~= Seq::empty());
    }

    /// Sets the query, selects the first result and refreshes the results.
    pub fn set_query(&mut self, query: &str)
        requires
            old(self).wf(),
        ensures
            final(self).wf(),
            final(self).command_seq() == old(self).command_seq(),
            final(self).query_text() == query@,
            final(self).result_seq() == palette_results(final(self).command_seq(), query@),
            final(self).selection() == 0,
    {
        self.query = String::from_str(query);
        self.selected = 0;
        self.update_results();
    }

    /// The current query.
    pub fn query(&self) -> (q: &str)
        ensures
            q@ == self.query_text(),
    {
        self.query.as_str()
    }

    /// The current results.
    pub fn results(&self) -> (r: &[SearchResult])
        ensures
            results_view(r@) == self.result_seq(),
    {
        self.results.as_slice()
    }

    /// The selected result, if the selection is in range.
    pub fn selected(&self) -> (r: Option<&SearchResult>)
        ensures
            match r {
                Some(x) => 0 <= self.selection() < self.result_seq().len() && result_view(*x)
                    == self.result_seq()[self.selection()],
                None => self.selection() >= self.result_seq().len(),
            },
    {
        if self.selected < self.results.len() {
            Some(&self.results[self.selected])
        } else {
            None
        }
    }

    /// The index of the selected result.
    pub fn selected_index(&self) -> (i: usize)
        ensures
            i as int == self.selection(),
    {
        self.selected
    }

    /// Moves the selection up, stopping at the first result.
    pub fn select_previous(&mut self)
        ensures
            final(self).selection() == if old(self).selection() > 0 {
                old(self).selection() - 1
            } else {
                0
            },
            final(self).command_seq() == old(self).command_seq(),
            final(self).query_text() == old(self).query_text(),
            final(self).result_seq() == old(self).result_seq(),
            final(self).wf() == old(self).wf(),
    {
        if self.selected > 0 {
            self.selected -= 1;
        }
    }

    /// Moves the selection down, stopping at the last result.
    pub fn select_next(&mut self)
        ensures
            final(self).selection() == if old(self).selection() + 1 < old(self).result_seq().len() {
                old(self).selection() + 1
            } else {
                old(self).selection()
            },
            final(self).command_seq() == old(self).command_seq(),
            final(self).query_text() == old(self).query_text(),
            final(self).result_seq() == old(self).result_seq(),
            final(self).wf() == old(self).wf(),
    {
        if self.selected < self.results.len() && self.selected + 1 < self.results.len() {
            self.selected += 1;
        }
    }

    /// Selects the first result.
    pub fn select_first(&mut self)
        ensures
            final(self).selection() == 0,
            final(self).command_seq() == old(self).command_seq(),
            final(self).query_text() == old(self).query_text(),
            final(self).result_seq() == old(self).result_seq(),
            final(self).wf() == old(self).wf(),
    {
        self.selected = 0;
    }

    /// Selects the last result, if there is one.
    pub fn select_last(&mut self)
        ensures
            final(self).selection() == if old(self).result_seq().len() > 0 {
                old(self).result_seq().len() - 1
            } else {
                old(self).selection()
            },
            final(self).command_seq() == old(self).command_seq(),
            final(self).query_text() == old(self).query_text(),
            final(self).result_seq() == old(self).result_seq(),
            final(self).wf() == old(self).wf(),
    {
        if self.results.len() > 0 {
            self.selected = self.results.len() - 1;
        }
    }

    /// The number of commands.
    pub fn command_count(&self) -> (n: usize)
        ensures
            n == self.command_seq().len(),
    {
        self.commands.len()
    }

    /// The number of results.
    pub fn result_count(&self) -> (n: usize)
        ensures
            n == self.result_seq().len(),
    {
        self.results.len()
    }
}

/// The results stably sorted by decreasing score (see `sort_by_score`).
fn sort_results(v: Vec<SearchResult>) -> (r: Vec<SearchResult>)
    ensures
        results_view(r@) == sort_by_score(results_view(v@)),
{
    let mut src = v;
    let ghost all = results_view(src@);
    assert(all.len() == src.len());
    let mut sorted: Vec<SearchResult> = Vec::new();
    let mut k: usize = 0;
    assert(all.subrange(0, 0) =~= Seq::<(PaletteCommand, int, Seq<int>)>::empty());
    assert(results_view(sorted@) =~= Seq::empty());
    assert(results_view(src@) =~= all.subrange(0, all.len() as int));
    while src.len() > 0
        invariant
            k <= all.len(),
            all.len() <= usize::MAX,
            results_view(src@) == all.subrange(k as int, all.len() as int),
            results_view(sorted@) == sort_by_score(all.subrange(0, k as int)),
        decreases src@.len(),
    {
        let ghost src_before = src@;
        assert(results_view(src_before).len() == src_before.len());
        assert(k < all.len());
        assert(results_view(src_before)[0] == all.subrange(k as int, all.len() as int)[0]);
        assert(results_view(src_before)[0] == result_view(src_before[0]));
        let x = src.remove(0);
        assert(result_view(x) == all[k as int]);
        assert(all.subrange(0, k + 1).drop_last() =~= all.subrange(0, k as int));
        let ghost before = results_view(sorted@);
        let mut p: usize = sorted.len();
        assert(before.subrange(0, p as int) =~= before);
        assert(before.subrange(p as int, before.len() as int) =~= Seq::<(PaletteCommand, int, Seq<int>)>::empty());
        assert(insert_by_score(before, result_view(x)) =~= insert_by_score(before, result_view(x)) + Seq::<
            (PaletteCommand, int, Seq<int>),
        >::empty());
        while p > 0 && sorted[p - 1].score < x.score
            invariant
                p <= sorted@.len(),
                results_view(sorted@) == before,
                insert_by_score(before, result_view(x)) == insert_by_score(before.subrange(0, p as int), result_view(x))
                    + before.subrange(p as int, before.len() as int),
            decreases p,
        {
            proof {
                let s = before.subrange(0, p as int);
                let xv = result_view(x);
                assert(before[p - 1] == result_view(sorted@[p - 1]));
                assert(s.drop_last() =~= before.subrange(0, p - 1));
                assert(before.subrange(p - 1, before.len() as int) =~= seq![s.last()] + before.subrange(
                    p as int,
                    before.len() as int,
                ));
                assert(insert_by_score(before.subrange(0, p - 1), xv).push(s.last()) + before.subrange(
                    p as int,
                    before.len() as int,
                ) =~= insert_by_score(before.subrange(0, p - 1), xv) + before.subrange(p - 1, before.len() as int));
            }
            p -= 1;
        }
        proof {
            let s = before.subrange(0, p as int);
            if p > 0 {
                assert(before[p - 1] == result_view(sorted@[p - 1]));
            }
            assert(insert_by_score(s, result_view(x)) =~= s.push(result_view(x)));
        }
        let ghost sorted_before = sorted@;
        sorted.insert(p, x);
        assert(results_view(sorted@) =~= before.subrange(0, p as int).push(result_view(x)) + before.subrange(
            p as int,
            before.len() as int,
        )) by {
            assert(sorted@ =~= sorted_before.insert(p as int, x));
        }
        assert(results_view(src@) =~= all.subrange(k + 1, all.len() as int)) by {
            assert(src@ =~= src_before.subrange(1, src_before.len() as int));
            assert forall|i: int| 0 <= i < src@.len() implies #[trigger] results_view(src@)[i] == all[k + 1 + i] by {
                assert(src@[i] == src_before[i + 1]);
                assert(results_view(src_before)[i + 1] == result_view(src_before[i + 1]));
                assert(results_view(src_before)[i + 1] == all.subrange(k as int, all.len() as int)[i + 1]);
            }
        }
        k += 1;
    }
    assert(all.subrange(0, k as int) =~= all);
    sorted
}

impl Default for CommandPalette {
    fn default() -> (p: CommandPalette)
        ensures
            p.wf(),
            p.command_seq().len() == 0,
            p.query_text().len() == 0,
            p.selection() == 0,
            p.result_seq().len() == 0,
    {
        CommandPalette::new()
    }
}


// ---------------------------------------------------------------------------
// Laws
// ---------------------------------------------------------------------------

proof fn lemma_greedy_spells(q: Seq<char>, t: Seq<char>, n: int)
    requires
        0 <= n <= t.len(),
    ensures
        ({
            let (qi, ms) = greedy(q, t, n);
            forall|k: int| 0 <= k < ms.len() ==> 0 <= #[trigger] ms[k] < t.len() && t[ms[k]] == q[k]
        }),
    decreases n,
{
    if n > 0 {
        lemma_greedy_spells(q, t, n - 1);
        lemma_greedy_shape(q, t, n - 1);
    }
}

/// A fuzzy match spells the whole query, ignoring ASCII case, at strictly
/// increasing positions of the target.
pub proof fn lemma_fuzzy_match_spells_query(query: Seq<char>, target: Seq<char>)
    requires
        query.len() > 0,
        fuzzy(query, target) is Some,
    ensures
        ({
            let ms = match fuzzy(query, target) {
                Some(p) => p.1,
                None => Seq::empty(),
            };
            &&& ms.len() == query.len()
            &&& forall|a: int, b: int| 0 <= a < b < ms.len() ==> ms[a] < ms[b]
            &&& forall|k: int|
                0 <= k < ms.len() ==> 0 <= #[trigger] ms[k] < target.len() && ascii_lower(target[ms[k]])
                    == ascii_lower(query[k])
        }),
{
    let q = lower(query);
    let t = lower(target);
    lemma_greedy_shape(q, t, t.len() as int);
    lemma_greedy_spells(q, t, t.len() as int);
}

/// Results scoring in non-increasing order.
pub open spec fn score_sorted(s: Seq<(PaletteCommand, int, Seq<int>)>) -> bool {
    forall|i: int, j: int| 0 <= i < j < s.len() ==> s[i].1 >= s[j].1
}

proof fn lemma_insert_by_score(s: Seq<(PaletteCommand, int, Seq<int>)>, x: (PaletteCommand, int, Seq<int>))
    requires
        score_sorted(s),
    ensures
        score_sorted(insert_by_score(s, x)),
        insert_by_score(s, x).to_multiset() == s.to_multiset().insert(x),
    decreases s.len(),
{
    if s.len() == 0 {
        vstd::seq_lib::to_multiset_build(s, x);
        assert(insert_by_score(s, x) =~= s.push(x));
    } else if s.last().1 >= x.1 {
        vstd::seq_lib::to_multiset_build(s, x);
    } else {
        let dl = s.drop_last();
        let l = s.last();
        lemma_insert_by_score(dl, x);
        let r = insert_by_score(dl, x);
        assert forall|i: int| 0 <= i < r.len() implies #[trigger] r[i].1 >= l.1 by {
            vstd::seq_lib::to_multiset_contains(r, r[i]);
            assert(r.contains(r[i]));
            vstd::seq_lib::to_multiset_contains(dl, r[i]);
            if r[i] != x {
                let k = choose|k: int| 0 <= k < dl.len() && dl[k] == r[i];
                assert(s[k] == dl[k]);
            }
        }
        vstd::seq_lib::to_multiset_build(r, l);
        vstd::seq_lib::to_multiset_build(dl, l);
        assert(dl.push(l) =~= s);
        assert(r.push(l).to_multiset() =~= s.to_multiset().insert(x));
    }
}

/// The results of a non-empty query come best score first, and they are
/// exactly the matching enabled commands.
pub proof fn lemma_results_sorted_by_score(cs: Seq<PaletteCommand>, query: Seq<char>)
    requires
        query.len() > 0,
    ensures
        score_sorted(palette_results(cs, query)),
        palette_results(cs, query).to_multiset() == candidates(cs, query).to_multiset(),
{
    lemma_sort_by_score(candidates(cs, query));
}

proof fn lemma_sort_by_score(s: Seq<(PaletteCommand, int, Seq<int>)>)
    ensures
        score_sorted(sort_by_score(s)),
        sort_by_score(s).to_multiset() == s.to_multiset(),
    decreases s.len(),
{
    if s.len() == 0 {
        assert(sort_by_score(s) =~= s);
    } else {
        lemma_sort_by_score(s.drop_last());
        lemma_insert_by_score(sort_by_score(s.drop_last()), s.last());
        vstd::seq_lib::to_multiset_build(s.drop_last(), s.last());
        assert(s.drop_last().push(s.last()) =~= s);
    }
}

/// Only enabled commands appear among the candidates, each with the score
/// and positions of its fuzzy match.
pub proof fn lemma_candidates_are_enabled_matches(cs: Seq<PaletteCommand>, query: Seq<char>, k: int)
    requires
        0 <= k < candidates(cs, query).len(),
    ensures
        candidates(cs, query)[k].0.enabled,
        fuzzy(query, candidates(cs, query)[k].0.label@) == Some(
            (candidates(cs, query)[k].1, candidates(cs, query)[k].2),
        ),
    decreases cs.len(),
{
    let r = candidates(cs.drop_last(), query);
    if k < r.len() {
        lemma_candidates_are_enabled_matches(cs.drop_last(), query, k);
    }
}

} // verus!
