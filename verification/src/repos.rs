//! The set of repositories the multi-repository daemon manages, kept by name in
//! name order.
use vstd::prelude::*;
use crate::client::{AgentConfig, RepoEntry, RepoV};
use crate::model::{get, has_key, key_pos, lemma_key_pos, unique_keys};
use crate::text::{concat3, lemma_lex_antisym, lemma_lex_refl, lemma_lex_total, lemma_lex_trans, lex_le, str_eq, str_le};

verus! {

/// `a` sorts strictly before `b`.
pub open spec fn lex_lt(a: Seq<char>, b: Seq<char>) -> bool {
    lex_le(a, b) && a != b
}

/// Names in strictly increasing order, so each occurs once.
pub open spec fn sorted_names(s: Seq<(Seq<char>, RepoV)>) -> bool {
    forall|i: int, j: int| 0 <= i < j < s.len() ==> lex_lt(#[trigger] s[i].0, #[trigger] s[j].0)
}

proof fn lemma_lt_le_trans(a: Seq<char>, b: Seq<char>, c: Seq<char>)
    requires
        lex_lt(a, b),
        lex_le(b, c),
    ensures
        lex_lt(a, c),
{
    lemma_lex_trans(a, b, c);
    if a == c {
        lemma_lex_antisym(b, c);
    }
}

proof fn lemma_sorted_unique(s: Seq<(Seq<char>, RepoV)>)
    requires
        sorted_names(s),
    ensures
        unique_keys(s),
{
    assert forall|i: int, j: int| 0 <= i < s.len() && 0 <= j < s.len() && i != j implies (#[trigger] s[i]).0 != (#[trigger] s[j]).0 by {
        if i < j {
            assert(lex_lt(s[i].0, s[j].0));
        } else {
            assert(lex_lt(s[j].0, s[i].0));
        }
    }
}


/// The entry a repository found with configuration `c` at `path` is imported as.
pub open spec fn config_entry(path: Seq<char>, c: AgentConfig) -> RepoV {
    RepoV { path, description: c.description@, enabled: true, claude_flags: c.claude_flags@ }
}

/// The entries the configurations found stand for, under their agents' names.
pub open spec fn found_items(found: Seq<(String, AgentConfig)>) -> Seq<(Seq<char>, RepoV)> {
    found.map_values(|f: (String, AgentConfig)| (f.1.name@, config_entry(f.0@, f.1)))
}

/// The value of the first item named `x`.
pub open spec fn first_named(items: Seq<(Seq<char>, RepoV)>, x: Seq<char>) -> Option<RepoV>
    decreases items.len(),
{
    if items.len() == 0 {
        None
    } else {
        match first_named(items.drop_last(), x) {
            Some(v) => Some(v),
            None => if items.last().0 == x { Some(items.last().1) } else { None },
        }
    }
}

/// How many items bring a name that is neither in `s` nor brought by an earlier item.
pub open spec fn count_new(s: Seq<(Seq<char>, RepoV)>, items: Seq<(Seq<char>, RepoV)>) -> nat
    decreases items.len(),
{
    if items.len() == 0 {
        0
    } else {
        count_new(s, items.drop_last()) + if !has_key(s, items.last().0) && first_named(items.drop_last(), items.last().0) is None { 1nat } else { 0 }
    }
}

/// What `x` holds once `items` are imported into `s`: its entry in `s` if any,
/// else the first item named `x`. Importing never replaces an entry.
pub open spec fn after_import(s: Seq<(Seq<char>, RepoV)>, items: Seq<(Seq<char>, RepoV)>, x: Seq<char>) -> Option<RepoV> {
    if has_key(s, x) { get(s, x) } else { first_named(items, x) }
}

/// The name `add` files a repository under: the one given, else the last
/// component of its path, else `unnamed`.
pub fn add_name(given: Option<String>, dir_name: Option<String>) -> (r: String)
    ensures
        r@ == match given {
            Some(n) => n@,
            None => match dir_name {
                Some(d) => d@,
                None => "unnamed"@,
            },
        },
{
    match given {
        Some(n) => n,
        None => match dir_name {
            Some(d) => d,
            None => "unnamed".to_owned(),
        },
    }
}

/// The entry `add` files: enabled, with an empty description or flag list where
/// none is given.
pub fn new_entry(path: String, description: Option<String>, flags: Option<String>) -> (r: RepoEntry)
    ensures
        r@ == (RepoV {
            path: path@,
            description: match description { Some(d) => d@, None => Seq::empty() },
            enabled: true,
            claude_flags: match flags { Some(f) => f@, None => Seq::empty() },
        }),
{
    RepoEntry {
        path,
        description: match description { Some(d) => d, None => String::new() },
        enabled: true,
        claude_flags: match flags { Some(f) => f, None => String::new() },
    }
}

/// The repositories, by name.
pub struct Repos {
    entries: Vec<(String, RepoEntry)>,
}

impl View for Repos {
    type V = Seq<(Seq<char>, RepoV)>;

    closed spec fn view(&self) -> Seq<(Seq<char>, RepoV)> {
        self.entries@.map_values(|e: (String, RepoEntry)| (e.0@, e.1@))
    }
}

/// Why a change to the set was refused.
#[derive(Debug, Clone, Copy, PartialEq, Eq, Structural)]
pub enum RepoError {
    /// `add` of a name already in the set.
    AlreadyExists,
    /// A name not in the set.
    NotFound,
}

/// The message the client prints for a refusal about `name`.
pub open spec fn repo_error_text(e: RepoError, name: Seq<char>) -> Seq<char> {
    match e {
        RepoError::AlreadyExists => "agent \""@ + name + "\" already exists — use --name to pick a different one"@,
        RepoError::NotFound => "agent \""@ + name + "\" not found"@,
    }
}

impl RepoError {
    pub fn message(&self, name: &str) -> (r: String)
        ensures
            r@ == repo_error_text(*self, name@),
    {
        match self {
            RepoError::AlreadyExists => concat3("agent \"", name, "\" already exists — use --name to pick a different one"),
            RepoError::NotFound => concat3("agent \"", name, "\" not found"),
        }
    }
}

/// The set with `(k, v)` in place of whatever `k` held.
pub open spec fn updated(s: Seq<(Seq<char>, RepoV)>, k: Seq<char>, v: RepoV, x: Seq<char>) -> Option<RepoV> {
    if x == k { Some(v) } else { get(s, x) }
}

impl Repos {
    /// Names in order, each once.
    #[verifier::type_invariant]
    spec fn wf(&self) -> bool {
        sorted_names(self@)
    }

    pub fn new() -> (r: Repos)
        ensures
            sorted_names(r@),
            r@.len() == 0,
    {
        Repos { entries: Vec::new() }
    }

    pub fn len(&self) -> (r: usize)
        ensures
            r == self@.len(),
    {
        self.entries.len()
    }

    /// The name and entry at position `i` of the name order.
    pub fn at(&self, i: usize) -> (r: (&String, &RepoEntry))
        requires
            i < self@.len(),
        ensures
            (r.0@, r.1@) == self@[i as int],
    {
        let e = &self.entries[i];
        (&e.0, &e.1)
    }

    /// The first position whose name does not sort before `name`.
    fn position(&self, name: &str) -> (p: usize)
        ensures
            p <= self@.len(),
            forall|i: int| 0 <= i < p ==> lex_lt(#[trigger] self@[i].0, name@),
            p < self@.len() ==> lex_le(name@, self@[p as int].0),
    {
        proof { use_type_invariant(&*self); }
        let ghost s = self@;
        let mut p: usize = 0;
        while p < self.entries.len()
            invariant
                p <= s.len(),
                s == self@,
                forall|i: int| 0 <= i < p ==> lex_lt(#[trigger] s[i].0, name@),
            decreases s.len() - p,
        {
            let k = self.entries[p].0.as_str();
            assert(k@ == s[p as int].0);
            if str_le(k, name) && !str_eq(k, name) {
                p = p + 1;
            } else {
                proof {
                    if !lex_le(k@, name@) {
                        lemma_lex_total(k@, name@);
                    } else {
                        lemma_lex_refl(name@);
                    }
                }
                return p;
            }
        }
        p
    }

    /// Whether `name` is in the set.
    pub fn contains(&self, name: &str) -> (r: bool)
        ensures
            r == has_key(self@, name@),
    {
        proof { use_type_invariant(&*self); }
        let p = self.position(name);
        proof { lemma_sorted_unique(self@); }
        if p < self.entries.len() && str_eq(self.entries[p].0.as_str(), name) {
            assert(self@[p as int].0 == name@);
            true
        } else {
            proof {
                if has_key(self@, name@) {
                    let i = choose|i: int| 0 <= i < self@.len() && (#[trigger] self@[i]).0 == name@;
                    if i < p {
                        assert(lex_lt(self@[i].0, name@));
                    } else if i > p {
                        assert(lex_lt(self@[p as int].0, self@[i].0));
                        lemma_lex_antisym(name@, self@[p as int].0);
                    }
                }
            }
            false
        }
    }

    /// Sets the entry under `name`, adding the name when it is new.
    pub fn insert(&mut self, name: String, entry: RepoEntry)
        ensures
            sorted_names(final(self)@),
            forall|x: Seq<char>| #[trigger] get(final(self)@, x) == updated(old(self)@, name@, entry@, x),
    {
        proof { use_type_invariant(&*self); }
        let ghost s = self@;
        let ghost k = name@;
        let ghost v = entry@;
        let p = self.position(name.as_str());
        proof { lemma_sorted_unique(s); }
        if p < self.entries.len() && str_eq(self.entries[p].0.as_str(), name.as_str()) {
            let mut entries: Vec<(String, RepoEntry)> = Vec::new();
            std::mem::swap(&mut entries, &mut self.entries);
            entries.set(p, (name, entry));
            let ghost t = entries@.map_values(|e: (String, RepoEntry)| (e.0@, e.1@));
            assert(t =~= s.update(p as int, (k, v)));
            assert(sorted_names(t)) by {
                assert forall|i: int, j: int| 0 <= i < j < t.len() implies lex_lt(#[trigger] t[i].0, #[trigger] t[j].0) by {
                    assert(s[i].0 == t[i].0 && s[j].0 == t[j].0);
                }
            }
            proof { lemma_sorted_unique(t); }
            std::mem::swap(&mut entries, &mut self.entries);
            assert(self@ =~= t);
            assert forall|x: Seq<char>| #[trigger] get(t, x) == updated(s, k, v, x) by {
                if x == k {
                    lemma_key_pos(t, k, p as int);
                } else {
                    if has_key(s, x) {
                        let i = key_pos(s, x);
                        lemma_key_pos(s, x, i);
                        lemma_key_pos(t, x, i);
                    } else if has_key(t, x) {
                        let i = key_pos(t, x);
                        lemma_key_pos(t, x, i);
                        assert(s[i].0 == x);
                    }
                }
            }
        } else {
            let mut entries: Vec<(String, RepoEntry)> = Vec::new();
            std::mem::swap(&mut entries, &mut self.entries);
            entries.insert(p, (name, entry));
            let ghost t = entries@.map_values(|e: (String, RepoEntry)| (e.0@, e.1@));
            assert(t =~= s.take(p as int) + seq![(k, v)] + s.skip(p as int));
            assert(t.len() == s.len() + 1);
            assert forall|i: int| 0 <= i < t.len() implies #[trigger] t[i] == (if i < p { s[i] } else if i == p { (k, v) } else { s[i - 1] }) by {
            }
            proof {
                if p < s.len() {
                    assert(s[p as int].0 != k);
                }
            }
            assert(sorted_names(t)) by {
                assert forall|i: int, j: int| 0 <= i < j < t.len() implies lex_lt(#[trigger] t[i].0, #[trigger] t[j].0) by {
                    if j < p {
                        assert(lex_lt(s[i].0, s[j].0));
                    } else if j == p {
                        assert(lex_lt(s[i].0, k));
                    } else if i < p {
                        assert(lex_lt(s[i].0, s[j - 1].0));
                    } else if i == p {
                        // k < s[p] <= s[j - 1]
                        assert(lex_le(k, s[p as int].0));
                        assert(lex_lt(k, s[p as int].0));
                        if j - 1 > p {
                            assert(lex_lt(s[p as int].0, s[j - 1].0));
                            lemma_lt_le_trans(k, s[p as int].0, s[j - 1].0);
                        }
                    } else {
                        assert(lex_lt(s[i - 1].0, s[j - 1].0));
                    }
                }
            }
            proof { lemma_sorted_unique(t); }
            std::mem::swap(&mut entries, &mut self.entries);
            assert(self@ =~= t);
            assert forall|x: Seq<char>| #[trigger] get(t, x) == updated(s, k, v, x) by {
                if x == k {
                    lemma_key_pos(t, k, p as int);
                } else {
                    if has_key(s, x) {
                        let i = key_pos(s, x);
                        lemma_key_pos(s, x, i);
                        let ti = if i < p { i } else { i + 1 };
                        assert(t[ti].0 == x);
                        lemma_key_pos(t, x, ti);
                    } else if has_key(t, x) {
                        let i = key_pos(t, x);
                        lemma_key_pos(t, x, i);
                        if i < p {
                            assert(s[i].0 == x);
                        } else if i > p {
                            assert(s[i - 1].0 == x);
                        }
                    }
                }
            }
        }
    }

    /// Removes `name`, handing back its entry; `NotFound` when it is not in the set.
    pub fn remove(&mut self, name: &str) -> (r: Result<RepoEntry, RepoError>)
        ensures
            sorted_names(final(self)@),
            match r {
                Ok(e) => get(old(self)@, name@) == Some(e@)
                    && forall|x: Seq<char>| #[trigger] get(final(self)@, x) == if x == name@ { None } else { get(old(self)@, x) },
                Err(e) => e == RepoError::NotFound && !has_key(old(self)@, name@) && final(self)@ == old(self)@,
            },
    {
        proof { use_type_invariant(&*self); }
        let ghost s = self@;
        proof { lemma_sorted_unique(s); }
        if !self.contains(name) {
            return Err(RepoError::NotFound);
        }
        let p = self.position(name);
        proof {
            let i = key_pos(s, name@);
            lemma_key_pos(s, name@, i);
            if i < p {
                assert(lex_lt(s[i].0, name@));
            } else if i > p {
                assert(lex_lt(s[p as int].0, s[i].0));
                lemma_lex_antisym(name@, s[p as int].0);
            }
        }
        let mut entries: Vec<(String, RepoEntry)> = Vec::new();
        std::mem::swap(&mut entries, &mut self.entries);
        let e = entries.remove(p);
        let ghost t = entries@.map_values(|e: (String, RepoEntry)| (e.0@, e.1@));
        assert(t =~= s.remove(p as int));
        assert(sorted_names(t)) by {
            assert forall|i: int, j: int| 0 <= i < j < t.len() implies lex_lt(#[trigger] t[i].0, #[trigger] t[j].0) by {
                let si = if i < p { i } else { i + 1 };
                let sj = if j < p { j } else { j + 1 };
                assert(t[i] == s[si] && t[j] == s[sj]);
                assert(lex_lt(s[si].0, s[sj].0));
            }
        }
        proof { lemma_sorted_unique(t); }
        std::mem::swap(&mut entries, &mut self.entries);
        assert(self@ =~= t);
        assert forall|x: Seq<char>| #[trigger] get(t, x) == if x == name@ { None } else { get(s, x) } by {
            if has_key(t, x) {
                let i = key_pos(t, x);
                lemma_key_pos(t, x, i);
                let si = if i < p { i } else { i + 1 };
                assert(s[si] == t[i]);
                lemma_key_pos(s, x, si);
            } else if has_key(s, x) && x != name@ {
                let i = key_pos(s, x);
                lemma_key_pos(s, x, i);
                if i < p {
                    assert(t[i].0 == x);
                } else if i > p {
                    assert(t[i - 1].0 == x);
                }
            }
        }
        Ok(e.1)
    }

    /// Adds `name` with `entry`; `AlreadyExists`, with nothing changed, when the
    /// name is taken.
    pub fn add(&mut self, name: String, entry: RepoEntry) -> (r: Result<(), RepoError>)
        ensures
            sorted_names(final(self)@),
            match r {
                Ok(()) => !has_key(old(self)@, name@)
                    && forall|x: Seq<char>| #[trigger] get(final(self)@, x) == updated(old(self)@, name@, entry@, x),
                Err(e) => e == RepoError::AlreadyExists && has_key(old(self)@, name@) && final(self)@ == old(self)@,
            },
    {
        proof { use_type_invariant(&*self); }
        if self.contains(name.as_str()) {
            Err(RepoError::AlreadyExists)
        } else {
            self.insert(name, entry);
            Ok(())
        }
    }

    /// Turns the agent of `name` on or off; `NotFound`, with nothing changed,
    /// when the name is not in the set.
    pub fn set_enabled(&mut self, name: &str, enabled: bool) -> (r: Result<(), RepoError>)
        ensures
            sorted_names(final(self)@),
            match r {
                Ok(()) => has_key(old(self)@, name@)
                    && forall|x: Seq<char>| #[trigger] get(final(self)@, x) == updated(
                        old(self)@,
                        name@,
                        RepoV { enabled, ..get(old(self)@, name@).unwrap() },
                        x,
                    ),
                Err(e) => e == RepoError::NotFound && !has_key(old(self)@, name@) && final(self)@ == old(self)@,
            },
    {
        proof { use_type_invariant(&*self); }
        let ghost s = self@;
        proof { lemma_sorted_unique(s); }
        if !self.contains(name) {
            return Err(RepoError::NotFound);
        }
        let p = self.position(name);
        proof {
            let i = key_pos(s, name@);
            lemma_key_pos(s, name@, i);
            if i < p {
                assert(lex_lt(s[i].0, name@));
            } else if i > p {
                assert(lex_lt(s[p as int].0, s[i].0));
                lemma_lex_antisym(name@, s[p as int].0);
            }
            lemma_key_pos(s, name@, p as int);
        }
        let old_entry = &self.entries[p].1;
        let e = RepoEntry {
            path: old_entry.path.clone(),
            description: old_entry.description.clone(),
            enabled,
            claude_flags: old_entry.claude_flags.clone(),
        };
        assert(e@ == RepoV { enabled, ..get(s, name@).unwrap() });
        self.insert(name.to_owned(), e);
        Ok(())
    }

    /// Imports the repositories found, each under its agent's name, skipping
    /// names already in the set; answers how many were imported and skipped.
    pub fn import_all(&mut self, found: Vec<(String, AgentConfig)>) -> (r: (usize, usize))
        ensures
            sorted_names(final(self)@),
            forall|x: Seq<char>| #[trigger] get(final(self)@, x) == after_import(old(self)@, found_items(found@), x),
            r.0 == count_new(old(self)@, found_items(found@)),
            r.0 + r.1 == found@.len(),
    {
        proof { use_type_invariant(&*self); }
        let ghost s0 = self@;
        let ghost items = found_items(found@);
        let mut imported: usize = 0;
        let mut skipped: usize = 0;
        let mut k: usize = 0;
        let n = found.len();
        assert(items.take(0) =~= Seq::<(Seq<char>, RepoV)>::empty());
        while k < n
            invariant
                n == items.len(),
                k <= n,
                n == found@.len(),
                items == found_items(found@),
                sorted_names(self@),
                forall|x: Seq<char>| #[trigger] get(self@, x) == after_import(s0, items.take(k as int), x),
                forall|x: Seq<char>| #[trigger] has_key(self@, x) == (has_key(s0, x) || first_named(items.take(k as int), x) is Some),
                imported == count_new(s0, items.take(k as int)),
                imported + skipped == k,
            decreases n - k,
        {
            let ghost t = items.take(k + 1);
            assert(t.drop_last() =~= items.take(k as int));
            let f = &found[k];
            let name = f.1.name.clone();
            let ghost item = items[k as int];
            assert(item == (f.1.name@, config_entry(f.0@, f.1)));
            assert(t.last() == item);
            let entry = RepoEntry {
                path: f.0.clone(),
                description: f.1.description.clone(),
                enabled: true,
                claude_flags: f.1.claude_flags.clone(),
            };
            assert(entry@ == item.1);
            let ghost before = self@;
            proof { lemma_sorted_unique(before); }
            if self.contains(name.as_str()) {
                skipped = skipped + 1;
                assert forall|x: Seq<char>| #[trigger] get(self@, x) == after_import(s0, t, x) by {
                    if x == item.0 && !has_key(s0, x) {
                        assert(first_named(items.take(k as int), x) is Some);
                    }
                }
                assert forall|x: Seq<char>| #[trigger] has_key(self@, x) == (has_key(s0, x) || first_named(t, x) is Some) by {
                    if x == item.0 {
                        assert(has_key(before, x));
                    }
                }
                assert(count_new(s0, t) == count_new(s0, items.take(k as int)));
            } else {
                self.insert(name, entry);
                imported = imported + 1;
                proof { lemma_sorted_unique(self@); }
                assert forall|x: Seq<char>| #[trigger] get(self@, x) == after_import(s0, t, x) by {
                    assert(get(self@, x) == updated(before, item.0, item.1, x));
                }
                assert forall|x: Seq<char>| #[trigger] has_key(self@, x) == (has_key(s0, x) || first_named(t, x) is Some) by {
                    let g = get(self@, x);
                    assert(g == updated(before, item.0, item.1, x));
                    if x == item.0 {
                        assert(g is Some);
                    }
                }
                assert(count_new(s0, t) == count_new(s0, items.take(k as int)) + 1);
            }
            k = k + 1;
        }
        assert(items.take(n as int) =~= items);
        (imported, skipped)
    }
}


/// A listing in strictly increasing name order, which every `Repos` holds and
/// every change to one keeps (`sorted_names`), names no repository twice.
pub proof fn law_names_in_order(s: Seq<(Seq<char>, RepoV)>)
    requires
        sorted_names(s),
    ensures
        unique_keys(s),
{
    lemma_sorted_unique(s);
}

} // verus!
