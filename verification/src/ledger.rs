//! The ledger: the source paths that were already copied.
//!
//! Paths are stored with forward slashes, and no path is stored twice. Normal
//! processing only adds entries; a rebase rewrites the leading directory of
//! the entries that lie under it.

use vstd::prelude::*;
use crate::text::{chars_of, push_chars, starts_with, string_of, strings_view};

verus! {

/// Why the ledger refused a change.
#[derive(Clone, Copy, Debug, PartialEq, Eq, Structural)]
pub enum LedgerError {
    /// The change would store one path twice.
    Duplicate,
}

/// The paths already copied, in the order in which they were recorded.
#[derive(Debug)]
pub struct Ledger {
    entries: Vec<String>,
}

/// The form in which a path is stored: every `\` becomes a `/`.
pub open spec fn normalized(path: Seq<char>) -> Seq<char> {
    path.map_values(
        |c: char|
            if c == '\\' {
                '/'
            } else {
                c
            },
    )
}

/// The form in which a root is matched: stored form, with a `/` at the end.
pub open spec fn rebase_prefix(root: Seq<char>) -> Seq<char> {
    if normalized(root).len() > 0 && normalized(root).last() == '/' {
        normalized(root)
    } else {
        normalized(root).push('/')
    }
}

/// The test that an entry lies under `prefix`.
pub open spec fn under(prefix: Seq<char>) -> spec_fn(Seq<char>) -> bool {
    |entry: Seq<char>| prefix.is_prefix_of(entry)
}

/// An entry after a rebase: one that begins with `from` has that beginning
/// replaced by `to`; any other stays.
pub open spec fn rebased_entry(entry: Seq<char>, from: Seq<char>, to: Seq<char>) -> Seq<char> {
    if from.is_prefix_of(entry) {
        to + entry.skip(from.len() as int)
    } else {
        entry
    }
}

/// All entries after a rebase.
pub open spec fn rebased(entries: Seq<Seq<char>>, from: Seq<char>, to: Seq<char>) -> Seq<
    Seq<char>,
> {
    entries.map_values(|entry: Seq<char>| rebased_entry(entry, from, to))
}

/// The number of entries that lie under `prefix`.
pub open spec fn match_count(entries: Seq<Seq<char>>, prefix: Seq<char>) -> nat {
    entries.filter(under(prefix)).len()
}

/// Stored form is stable: a stored path is stored as it is.
pub proof fn lemma_normalized_twice(path: Seq<char>)
    ensures
        normalized(normalized(path)) == normalized(path),
{
    assert(normalized(normalized(path)) =~= normalized(path));
}

/// The matching form of a root is stable.
pub proof fn lemma_rebase_prefix_twice(root: Seq<char>)
    ensures
        rebase_prefix(rebase_prefix(root)) == rebase_prefix(root),
{
    let p = rebase_prefix(root);
    lemma_normalized_twice(root);
    assert(normalized(p) =~= p);
}

/// Recording an entry keeps every entry that was there, and the new one is
/// there.
pub proof fn lemma_push_keeps_entries(ledger: Seq<Seq<char>>, entry: Seq<char>, key: Seq<char>)
    ensures
        ledger.contains(key) ==> ledger.push(entry).contains(key),
        ledger.push(entry).contains(entry),
{
    if ledger.contains(key) {
        let i = choose|i: int| 0 <= i < ledger.len() && ledger[i] == key;
        assert(ledger.push(entry)[i] == key);
    }
    assert(ledger.push(entry)[ledger.len() as int] == entry);
}

/// A rebase leaves the neighbours of a directory alone: an entry that goes
/// on after the root with anything but a `/` does not lie under the root, and
/// stays as it is.
pub proof fn lemma_neighbour_stays(root: Seq<char>, entry: Seq<char>, to: Seq<char>)
    requires
        normalized(root).len() == 0 || normalized(root).last() != '/',
        normalized(root).len() < entry.len(),
        entry[normalized(root).len() as int] != '/',
    ensures
        !rebase_prefix(root).is_prefix_of(entry),
        rebased_entry(entry, rebase_prefix(root), to) == entry,
{
    let prefix = rebase_prefix(root);
    if prefix.is_prefix_of(entry) {
        assert(entry.subrange(0, prefix.len() as int)[normalized(root).len() as int] == '/');
    }
}

/// A path in the form in which the ledger stores it.
pub fn get_sql_safe_filename(path: &str) -> (r: String)
    ensures
        r@ == normalized(path@),
{
    let chars = stored_chars(path);
    string_of(&chars)
}

fn stored_chars(path: &str) -> (out: Vec<char>)
    ensures
        out@ == normalized(path@),
{
    let chars = chars_of(path);
    let mut out: Vec<char> = Vec::new();
    let mut i: usize = 0;
    while i < chars.len()
        invariant
            i <= chars.len(),
            chars@ == path@,
            out@ == normalized(path@.take(i as int)),
        decreases chars.len() - i,
    {
        let c = chars[i];
        if c == '\\' {
            out.push('/');
        } else {
            out.push(c);
        }
        i += 1;
        proof {
            assert(out@ =~= normalized(path@.take(i as int)));
        }
    }
    proof {
        assert(path@.take(chars@.len() as int) =~= path@);
    }
    out
}

fn prefix_chars(root: &str) -> (out: Vec<char>)
    ensures
        out@ == rebase_prefix(root@),
{
    let mut out = stored_chars(root);
    if out.len() == 0 || out[out.len() - 1] != '/' {
        out.push('/');
    }
    out
}

/// A root in the form in which a rebase matches it.
pub fn rebase_root(root: &str) -> (r: String)
    ensures
        r@ == rebase_prefix(root@),
{
    let chars = prefix_chars(root);
    string_of(&chars)
}

fn holds(entries: &Vec<String>, key: &String) -> (b: bool)
    ensures
        b == strings_view(entries@).contains(key@),
{
    let mut i: usize = 0;
    while i < entries.len()
        invariant
            i <= entries.len(),
            forall|j: int| 0 <= j < i ==> strings_view(entries@)[j] != key@,
        decreases entries.len() - i,
    {
        if entries[i] == *key {
            proof {
                assert(strings_view(entries@)[i as int] == key@);
            }
            return true;
        }
        i += 1;
    }
    false
}

fn all_distinct(entries: &Vec<String>) -> (b: bool)
    ensures
        b == strings_view(entries@).no_duplicates(),
{
    let ghost all = strings_view(entries@);
    let mut i: usize = 0;
    while i < entries.len()
        invariant
            i <= entries.len(),
            all == strings_view(entries@),
            forall|a: int, b: int| 0 <= a < b < all.len() && b < i ==> all[a] != all[b],
        decreases entries.len() - i,
    {
        let mut k: usize = 0;
        while k < i
            invariant
                k <= i < entries.len(),
                all == strings_view(entries@),
                forall|a: int| 0 <= a < k ==> all[a] != all[i as int],
            decreases i - k,
        {
            if entries[k] == entries[i] {
                proof {
                    assert(all[k as int] == all[i as int]);
                }
                return false;
            }
            k += 1;
        }
        i += 1;
    }
    proof {
        assert forall|a: int, b: int| 0 <= a < all.len() && 0 <= b < all.len() && a != b implies all[a]
            != all[b] by {
            if b < a {
                assert(all[b] != all[a]);
            }
        }
    }
    true
}

impl View for Ledger {
    type V = Seq<Seq<char>>;

    closed spec fn view(&self) -> Seq<Seq<char>> {
        strings_view(self.entries@)
    }
}

impl Ledger {
    /// No path is stored twice.
    pub open spec fn wf(&self) -> bool {
        self@.no_duplicates()
    }

    /// An empty ledger.
    pub fn new() -> (l: Ledger)
        ensures
            l.wf(),
            l@ == Seq::<Seq<char>>::empty(),
    {
        let l = Ledger { entries: Vec::new() };
        proof {
            assert(l@ =~= Seq::<Seq<char>>::empty());
        }
        l
    }

    /// A ledger of the stored paths `entries`, which are taken as they are;
    /// refused where one path comes twice.
    pub fn from_entries(entries: Vec<String>) -> (r: Result<Ledger, LedgerError>)
        ensures
            match r {
                Ok(l) => l.wf() && l@ == strings_view(entries@),
                Err(e) => e == LedgerError::Duplicate && !strings_view(entries@).no_duplicates(),
            },
    {
        if all_distinct(&entries) {
            Ok(Ledger { entries })
        } else {
            Err(LedgerError::Duplicate)
        }
    }

    /// The number of stored paths.
    pub fn len(&self) -> (n: usize)
        ensures
            n == self@.len(),
    {
        self.entries.len()
    }

    /// The stored paths, in the order in which they were recorded.
    pub fn entries(&self) -> (r: &Vec<String>)
        ensures
            strings_view(r@) == self@,
    {
        &self.entries
    }

    /// Whether `path` was recorded: whether its stored form is an entry.
    pub fn is_processed(&self, path: &str) -> (b: bool)
        ensures
            b == self@.contains(normalized(path@)),
    {
        let key = get_sql_safe_filename(path);
        holds(&self.entries, &key)
    }

    /// Records `path`. A path that is recorded already is refused, and the
    /// ledger stays as it was.
    pub fn mark_processed(&mut self, path: &str) -> (r: Result<(), LedgerError>)
        requires
            old(self).wf(),
        ensures
            final(self).wf(),
            match r {
                Ok(_) => !old(self)@.contains(normalized(path@)) && final(self)@ == old(self)@.push(
                    normalized(path@),
                ),
                Err(e) => e == LedgerError::Duplicate && old(self)@.contains(normalized(path@))
                    && final(self)@ == old(self)@,
            },
    {
        let key = get_sql_safe_filename(path);
        if holds(&self.entries, &key) {
            return Err(LedgerError::Duplicate);
        }
        self.entries.push(key);
        proof {
            assert(self@ =~= old(self)@.push(normalized(path@)));
        }
        Ok(())
    }

    /// Moves the entries under `old_root` to `new_root`, and returns how many
    /// entries lie under `old_root`. Both roots are matched in stored form
    /// with a `/` at the end, so that a directory whose name merely begins
    /// like `old_root` is left alone. A dry run only counts. A rebase that
    /// would store one path twice is refused, and the ledger stays as it was.
    pub fn rebase(&mut self, old_root: &str, new_root: &str, dry_run: bool) -> (r: Result<
        usize,
        LedgerError,
    >)
        requires
            old(self).wf(),
        ensures
            final(self).wf(),
            match r {
                Ok(n) => {
                    &&& n == match_count(old(self)@, rebase_prefix(old_root@))
                    &&& dry_run ==> final(self)@ == old(self)@
                    &&& !dry_run ==> final(self)@ == rebased(
                        old(self)@,
                        rebase_prefix(old_root@),
                        rebase_prefix(new_root@),
                    )
                },
                Err(e) => {
                    &&& e == LedgerError::Duplicate
                    &&& !dry_run
                    &&& final(self)@ == old(self)@
                    &&& !rebased(
                        old(self)@,
                        rebase_prefix(old_root@),
                        rebase_prefix(new_root@),
                    ).no_duplicates()
                },
            },
    {
        let from = prefix_chars(old_root);
        let to = prefix_chars(new_root);
        let ghost before = self@;
        let mut updated: Vec<String> = Vec::new();
        let mut count: usize = 0;
        let mut i: usize = 0;
        while i < self.entries.len()
            invariant
                i <= self.entries.len(),
                before == strings_view(self.entries@),
                count == match_count(before.take(i as int), from@),
                count <= i,
                strings_view(updated@) == rebased(before.take(i as int), from@, to@),
            decreases self.entries.len() - i,
        {
            let entry = chars_of(self.entries[i].as_str());
            let ghost done = strings_view(updated@);
            proof {
                assert(entry@ == before[i as int]);
                assert(before.take(i + 1) =~= before.take(i as int).push(before[i as int]));
                before.take(i as int).lemma_filter_push(before[i as int], under(from@));
            }
            if starts_with(&entry, &from) {
                let mut moved: Vec<char> = Vec::new();
                push_chars(&mut moved, &to);
                let mut k: usize = from.len();
                while k < entry.len()
                    invariant
                        from.len() <= k <= entry.len(),
                        moved@ == to@ + entry@.subrange(from.len() as int, k as int),
                    decreases entry.len() - k,
                {
                    moved.push(entry[k]);
                    k += 1;
                    proof {
                        assert(moved@ =~= to@ + entry@.subrange(from.len() as int, k as int));
                    }
                }
                proof {
                    assert(entry@.subrange(from.len() as int, entry@.len() as int) =~= entry@.skip(
                        from.len() as int,
                    ));
                }
                updated.push(string_of(&moved));
                count += 1;
            } else {
                updated.push(string_of(&entry));
            }
            i += 1;
            proof {
                assert(strings_view(updated@) =~= done.push(
                    rebased_entry(before[i - 1], from@, to@),
                ));
                assert(strings_view(updated@) =~= rebased(before.take(i as int), from@, to@));
            }
        }
        proof {
            assert(before.take(self.entries@.len() as int) =~= before);
        }
        if dry_run {
            return Ok(count);
        }
        if !all_distinct(&updated) {
            return Err(LedgerError::Duplicate);
        }
        self.entries = updated;
        Ok(count)
    }
}

/// What a rebase did, or in test mode would have done.
#[derive(Debug, PartialEq, Eq)]
pub struct RebaseSummary {
    /// The root that was matched, in the form in which it was matched.
    pub source_root: String,
    /// The root that took its place, in the same form.
    pub dest_root: String,
    /// The number of entries under the matched root.
    pub rows: usize,
}

/// Rebases the ledger from `original_file_root` to `destination_file_root`.
/// In test mode the ledger is left as it is and the entries that would move
/// are counted.
pub fn process_rebase(
    ledger: &mut Ledger,
    original_file_root: &str,
    destination_file_root: &str,
    test_mode: bool,
) -> (r: Result<RebaseSummary, LedgerError>)
    requires
        old(ledger).wf(),
    ensures
        final(ledger).wf(),
        match r {
            Ok(s) => {
                &&& s.source_root@ == rebase_prefix(original_file_root@)
                &&& s.dest_root@ == rebase_prefix(destination_file_root@)
                &&& s.rows == match_count(old(ledger)@, rebase_prefix(original_file_root@))
                &&& test_mode ==> final(ledger)@ == old(ledger)@
                &&& !test_mode ==> final(ledger)@ == rebased(
                    old(ledger)@,
                    rebase_prefix(original_file_root@),
                    rebase_prefix(destination_file_root@),
                )
            },
            Err(e) => {
                &&& e == LedgerError::Duplicate
                &&& !test_mode
                &&& final(ledger)@ == old(ledger)@
                &&& !rebased(
                    old(ledger)@,
                    rebase_prefix(original_file_root@),
                    rebase_prefix(destination_file_root@),
                ).no_duplicates()
            },
        },
{
    let source_root = rebase_root(original_file_root);
    let dest_root = rebase_root(destination_file_root);
    proof {
        lemma_rebase_prefix_twice(original_file_root@);
        lemma_rebase_prefix_twice(destination_file_root@);
    }
    match ledger.rebase(source_root.as_str(), dest_root.as_str(), test_mode) {
        Ok(rows) => Ok(RebaseSummary { source_root, dest_root, rows }),
        Err(e) => Err(e),
    }
}

} // verus!
