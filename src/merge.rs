use vstd::prelude::*;
use vstd::set_lib::lemma_len_subset;

use crate::context::{Context, ContextManager};
use crate::task::Task;
use crate::text::{decimal, decimal_text, lemma_decimal_injective};

verus! {

/// The name that an imported context takes on its `c`-th try when its own
/// name `base` is taken: `base-imported`, then `base-imported-2`, and so on.
pub open spec fn imported_name(base: Seq<char>, c: nat) -> Seq<char> {
    if c <= 1 {
        base + "-imported"@
    } else {
        base + "-imported"@ + "-"@ + decimal(c)
    }
}

/// `c` is the first try whose name is free in `taken`.
pub open spec fn is_first_free(taken: Set<Seq<char>>, base: Seq<char>, c: nat) -> bool {
    &&& c >= 1
    &&& !taken.contains(imported_name(base, c))
    &&& forall|c2: nat| 1 <= c2 < c ==> taken.contains(#[trigger] imported_name(base, c2))
}

/// Different tries give different names, none of them `base` itself.
pub proof fn lemma_imported_name_injective(base: Seq<char>, c1: nat, c2: nat)
    requires
        c1 >= 1,
        c2 >= 1,
        imported_name(base, c1) == imported_name(base, c2),
    ensures
        c1 == c2,
{
    reveal_strlit("-");
    let head = base + "-imported"@;
    if c1 >= 2 && c2 >= 2 {
        let n = head.len() + 1;
        assert(imported_name(base, c1).subrange(n as int, imported_name(base, c1).len() as int)
            =~= decimal(c1));
        assert(imported_name(base, c2).subrange(n as int, imported_name(base, c2).len() as int)
            =~= decimal(c2));
        lemma_decimal_injective(c1, c2);
    } else if c1 >= 2 {
        assert(imported_name(base, c1).len() > head.len());
    } else if c2 >= 2 {
        assert(imported_name(base, c2).len() > head.len());
    }
}

/// An imported name never equals the name it was made from.
pub proof fn lemma_imported_name_differs(base: Seq<char>, c: nat)
    ensures
        imported_name(base, c) != base,
{
    reveal_strlit("-imported");
    assert(imported_name(base, c).len() > base.len());
}

/// The first try is the only first free one.
proof fn lemma_first_free_unique(taken: Set<Seq<char>>, base: Seq<char>, c1: nat, c2: nat)
    requires
        is_first_free(taken, base, c1),
        is_first_free(taken, base, c2),
    ensures
        c1 == c2,
{
    if c1 < c2 {
        assert(taken.contains(imported_name(base, c1)));
    } else if c2 < c1 {
        assert(taken.contains(imported_name(base, c2)));
    }
}

/// When `base` is taken and `base-imported` is free, an imported context
/// named `base` is stored as `base-imported`; when that is taken as well and
/// `base-imported-2` is free, it is stored as `base-imported-2`. Either way
/// the existing `base` keeps its own entry.
pub proof fn lemma_collision_names(taken: Set<Seq<char>>, base: Seq<char>, c: nat)
    requires
        taken.contains(base),
        is_first_free(taken, base, c),
    ensures
        imported_name(base, c) != base,
        !taken.contains(base + "-imported"@) ==> imported_name(base, c) == base + "-imported"@,
        taken.contains(base + "-imported"@) && !taken.contains(base + "-imported-2"@)
            ==> imported_name(base, c) == base + "-imported-2"@,
{
    lemma_imported_name_differs(base, c);
    if !taken.contains(base + "-imported"@) {
        assert(is_first_free(taken, base, 1));
        lemma_first_free_unique(taken, base, 1, c);
    }
    reveal_strlit("-imported-2");
    reveal_strlit("-imported");
    reveal_strlit("-");
    reveal_strlit("2");
    assert(decimal(2) =~= seq!['2']);
    assert(imported_name(base, 2) =~= base + "-imported-2"@);
    if taken.contains(base + "-imported"@) && !taken.contains(base + "-imported-2"@) {
        assert(imported_name(base, 1) == base + "-imported"@);
        assert forall|c2: nat| 1 <= c2 < 2 implies taken.contains(
            #[trigger] imported_name(base, c2),
        ) by {
            assert(c2 == 1);
        }
        assert(is_first_free(taken, base, 2));
        lemma_first_free_unique(taken, base, 2, c);
    }
}

/// The name of the `c`-th try for `base`.
fn imported_name_text(base: &str, c: u128) -> (r: String)
    requires
        c >= 1,
    ensures
        r@ == imported_name(base@, c as nat),
{
    let mut s = base.to_owned();
    s.append("-imported");
    if c > 1 {
        s.append("-");
        let d = decimal_text(c);
        s.append(d.as_str());
    }
    s
}


/// Where one imported context went.
#[derive(Debug, Clone)]
pub struct ImportedContext {
    /// Its name in the imported data.
    pub name: String,
    /// The name it is stored under now.
    pub stored_as: String,
    /// How many tasks it brought.
    pub task_count: usize,
}

/// The names taken once the first `i` entries of `report` are stored on top
/// of the names `start`.
pub open spec fn taken_after(start: Set<Seq<char>>, report: Seq<ImportedContext>, i: int) -> Set<
    Seq<char>,
>
    decreases i,
{
    if i <= 0 {
        start
    } else {
        taken_after(start, report, i - 1).insert(report[i - 1].stored_as@)
    }
}

/// Report entry `e` followed the naming rule against the names `taken` just
/// before it was stored, and `after` holds what it stored: under its own
/// name, unchanged, when that was free; otherwise under the first free
/// imported name, as a context of that name holding the imported tasks.
pub open spec fn stored_by_rule(
    taken: Set<Seq<char>>,
    e: ImportedContext,
    imported: Map<Seq<char>, (Seq<char>, Seq<Task>)>,
    after: Map<Seq<char>, (Seq<char>, Seq<Task>)>,
) -> bool {
    &&& !taken.contains(e.name@) ==> e.stored_as@ == e.name@ && after[e.name@] == imported[e.name@]
    &&& taken.contains(e.name@) ==> (exists|c: nat|
        is_first_free(taken, e.name@, c) && e.stored_as@ == imported_name(e.name@, c))
        && after[e.stored_as@] == (e.stored_as@, imported[e.name@].1)
}

proof fn lemma_taken_prefix(start: Set<Seq<char>>, s: Seq<ImportedContext>, x: ImportedContext, k: int)
    requires
        0 <= k <= s.len(),
    ensures
        taken_after(start, s.push(x), k) == taken_after(start, s, k),
    decreases k,
{
    if k > 0 {
        lemma_taken_prefix(start, s, x, k - 1);
        assert(s.push(x)[k - 1] == s[k - 1]);
    }
}

/// `after` is `before` with every context of `imported` merged in, and
/// `report` says where each went, in the order they were stored: existing
/// contexts and the active name stay, and each imported context adds one new
/// entry that holds its tasks, named by the rule of `stored_by_rule`.
pub open spec fn merged(
    before: &ContextManager,
    imported: &ContextManager,
    after: &ContextManager,
    report: Seq<ImportedContext>,
) -> bool {
    &&& after.wf()
    &&& after.active_context == before.active_context
    &&& report.len() == imported.contexts@.len()
    &&& after.contexts@.len() == before.contexts@.len() + imported.contexts@.len()
    &&& forall|k: Seq<char>| #[trigger]
        before.contexts@.dom().contains(k) ==> after.contexts@.dom().contains(k)
            && after.contexts@[k] == before.contexts@[k]
    &&& forall|i: int|
        0 <= i < report.len() ==> {
            let e = #[trigger] report[i];
            &&& imported.contexts@.dom().contains(e.name@)
            &&& !before.contexts@.dom().contains(e.stored_as@)
            &&& after.contexts@.dom().contains(e.stored_as@)
            &&& after.contexts@[e.stored_as@].1 == imported.contexts@[e.name@].1
            &&& e.task_count == imported.contexts@[e.name@].1.len()
        }
    &&& forall|i: int, j: int|
        0 <= i < report.len() && 0 <= j < report.len() && i != j ==> report[i].name@
            != report[j].name@ && report[i].stored_as@ != report[j].stored_as@
    &&& forall|k: Seq<char>| #[trigger]
        imported.contexts@.dom().contains(k) ==> exists|i: int|
            0 <= i < report.len() && report[i].name@ == k
    &&& forall|k: Seq<char>| #[trigger]
        after.contexts@.dom().contains(k) ==> before.contexts@.dom().contains(k) || exists|i: int|
            0 <= i < report.len() && report[i].stored_as@ == k
    &&& after.contexts@.dom() == taken_after(before.contexts@.dom(), report, report.len() as int)
    &&& forall|i: int|
        0 <= i < report.len() ==> stored_by_rule(
            taken_after(before.contexts@.dom(), report, i),
            #[trigger] report[i],
            imported.contexts@,
            after.contexts@,
        )
}

impl ContextManager {
    /// Adds an imported context under its own name `key` when that is free,
    /// and otherwise under the first free name of `key-imported`,
    /// `key-imported-2`, ..., holding its tasks. Returns the name used; no
    /// existing context changes.
    pub fn merge_context(&mut self, key: String, ctx: Context) -> (stored: String)
        requires
            old(self).wf(),
        ensures
            final(self).wf(),
            final(self).active_context == old(self).active_context,
            !old(self).contexts@.dom().contains(stored@),
            !old(self).contexts@.dom().contains(key@) ==> stored@ == key@ && final(self).contexts@
                == old(self).contexts@.insert(key@, ctx@),
            old(self).contexts@.dom().contains(key@) ==> (exists|c: nat|
                is_first_free(old(self).contexts@.dom(), key@, c) && stored@ == imported_name(
                    key@,
                    c,
                )) && final(self).contexts@ == old(self).contexts@.insert(
                stored@,
                (stored@, ctx.tasks@),
            ),
    {
        if !self.contexts.contains_key(key.as_str()) {
            let stored = key.clone();
            self.contexts.insert(key, ctx);
            return stored;
        }
        let ghost taken = self.contexts@.dom();
        proof {
            self.contexts.lemma_finite();
        }
        let mut counter: u128 = 1;
        let mut candidate = imported_name_text(key.as_str(), 1);
        let ghost mut seen: Set<Seq<char>> = Set::empty();
        while self.contexts.contains_key(candidate.as_str())
            invariant
                self.wf(),
                taken == self.contexts@.dom(),
                taken.finite(),
                taken.len() <= usize::MAX,
                1 <= counter <= taken.len() + 1,
                candidate@ == imported_name(key@, counter as nat),
                forall|c2: nat| 1 <= c2 < counter ==> taken.contains(#[trigger] imported_name(key@, c2)),
                seen.finite(),
                seen.len() == counter - 1,
                seen.subset_of(taken),
                forall|n: Seq<char>| #[trigger]
                    seen.contains(n) ==> exists|c2: nat| 1 <= c2 < counter && n == imported_name(key@, c2),
            decreases taken.len() + 1 - counter,
        {
            proof {
                if seen.contains(candidate@) {
                    let c2 = choose|c2: nat| 1 <= c2 < counter && candidate@ == imported_name(key@, c2);
                    lemma_imported_name_injective(key@, c2, counter as nat);
                }
                seen = seen.insert(candidate@);
                lemma_len_subset(seen, taken);
                assert forall|n: Seq<char>| #[trigger] seen.contains(n) implies exists|c2: nat|
                    1 <= c2 < counter + 1 && n == imported_name(key@, c2) by {
                    if n != candidate@ {
                        let c2 = choose|c2: nat| 1 <= c2 < counter && n == imported_name(key@, c2);
                        assert(1 <= c2 < counter + 1);
                    } else {
                        assert(n == imported_name(key@, counter as nat));
                    }
                }
                assert forall|c2: nat| 1 <= c2 < counter + 1 implies taken.contains(
                    #[trigger] imported_name(key@, c2),
                ) by {
                    if c2 == counter {
                        assert(imported_name(key@, c2) == candidate@);
                    }
                }
            }
            counter = counter + 1;
            candidate = imported_name_text(key.as_str(), counter);
        }
        assert(is_first_free(taken, key@, counter as nat));
        let stored = candidate.clone();
        let placed = Context { name: candidate, tasks: ctx.tasks };
        self.contexts.insert(stored.clone(), placed);
        stored
    }

    /// Merges every context of `imported` into this manager with
    /// `merge_context`, and reports where each went. Existing contexts and
    /// the active one stay as they were; each imported context adds one new
    /// entry that holds its tasks.
    pub fn merge_import(&mut self, imported: ContextManager) -> (r: Vec<ImportedContext>)
        requires
            old(self).wf(),
            imported.wf(),
        ensures
            merged(old(self), &imported, final(self), r@),
    {
        let ghost orig = self.contexts@;
        let ghost imp = imported.contexts@;
        let mut rest = imported.contexts;
        let mut out: Vec<ImportedContext> = Vec::new();
        proof {
            rest.lemma_finite();
            self.contexts.lemma_finite();
        }
        loop
            invariant
                self.wf(),
                rest.wf(),
                self.active_context == old(self).active_context,
                orig == old(self).contexts@,
                imp == imported.contexts@,
                rest@.dom().finite(),
                imp.dom().finite(),
                self.contexts@.dom().finite(),
                forall|k: Seq<char>| #[trigger]
                    rest@.dom().contains(k) ==> imp.dom().contains(k) && rest@[k] == imp[k],
                out@.len() + rest@.len() == imp.len(),
                self.contexts@.len() == orig.len() + out@.len(),
                forall|k: Seq<char>| #[trigger]
                    orig.dom().contains(k) ==> self.contexts@.dom().contains(k) && self.contexts@[k]
                        == orig[k],
                forall|i: int|
                    0 <= i < out@.len() ==> {
                        let e = #[trigger] out@[i];
                        &&& imp.dom().contains(e.name@)
                        &&& !rest@.dom().contains(e.name@)
                        &&& !orig.dom().contains(e.stored_as@)
                        &&& self.contexts@.dom().contains(e.stored_as@)
                        &&& self.contexts@[e.stored_as@].1 == imp[e.name@].1
                        &&& e.task_count == imp[e.name@].1.len()
                    },
                forall|i: int, j: int|
                    0 <= i < out@.len() && 0 <= j < out@.len() && i != j ==> out@[i].name@
                        != out@[j].name@ && out@[i].stored_as@ != out@[j].stored_as@,
                forall|k: Seq<char>| #[trigger]
                    imp.dom().contains(k) ==> rest@.dom().contains(k) || exists|i: int|
                        0 <= i < out@.len() && out@[i].name@ == k,
                forall|k: Seq<char>| #[trigger]
                    self.contexts@.dom().contains(k) ==> orig.dom().contains(k) || exists|i: int|
                        0 <= i < out@.len() && out@[i].stored_as@ == k,
                self.contexts@.dom() == taken_after(orig.dom(), out@, out@.len() as int),
                forall|i: int|
                    0 <= i < out@.len() ==> stored_by_rule(
                        taken_after(orig.dom(), out@, i),
                        #[trigger] out@[i],
                        imp,
                        self.contexts@,
                    ),
            ensures
                rest@.len() == 0,
            decreases rest@.len(),
        {
            let ghost rest_before = rest@;
            let ghost self_before = self.contexts@;
            let ghost out_before = out@;
            match rest.pop_entry() {
                None => {
                    break;
                },
                Some(entry) => {
                    let (key, ctx) = entry;
                    let name = key.clone();
                    let task_count = ctx.tasks.len();
                    let ghost tasks = ctx.tasks@;
                    let stored_as = self.merge_context(key, ctx);
                    proof {
                        rest.lemma_finite();
                        self.contexts.lemma_finite();
                        assert(self.contexts@ == self_before.insert(
                            stored_as@,
                            (self.contexts@[stored_as@].0, tasks),
                        ));
                    }
                    out.push(ImportedContext { name, stored_as, task_count });
                    proof {
                        let n = out@.len() - 1;
                        assert(out@[n].name@ == name@);
                        assert(out@ == out_before.push(out@[n]));
                        assert forall|j: int| 0 <= j <= n implies taken_after(orig.dom(), out@, j)
                            == taken_after(orig.dom(), out_before, j) by {
                            lemma_taken_prefix(orig.dom(), out_before, out@[n], j);
                        }
                        assert(taken_after(orig.dom(), out@, n + 1) == self_before.dom().insert(
                            stored_as@,
                        ));
                        assert(self.contexts@.dom() =~= self_before.dom().insert(stored_as@));
                        assert(rest_before[key@] == imp[key@]);
                        assert(stored_by_rule(
                            taken_after(orig.dom(), out@, n),
                            out@[n],
                            imp,
                            self.contexts@,
                        ));
                        assert forall|j: int| 0 <= j < out@.len() implies stored_by_rule(
                            taken_after(orig.dom(), out@, j),
                            #[trigger] out@[j],
                            imp,
                            self.contexts@,
                        ) by {
                            if j < n {
                                assert(out@[j] == out_before[j]);
                                assert(stored_by_rule(
                                    taken_after(orig.dom(), out_before, j),
                                    out_before[j],
                                    imp,
                                    self_before,
                                ));
                                assert(self_before.dom().contains(out_before[j].stored_as@));
                                assert(out_before[j].stored_as@ != stored_as@);
                            }
                        }
                        assert forall|i: int| 0 <= i < n implies out@[i] == out_before[i] by {}
                        assert forall|k: Seq<char>| #[trigger]
                            imp.dom().contains(k) implies rest@.dom().contains(k) || exists|i: int|
                                0 <= i < out@.len() && out@[i].name@ == k by {
                            if !rest@.dom().contains(k) {
                                if k == name@ {
                                    assert(out@[n].name@ == k);
                                } else {
                                    assert(!rest_before.dom().contains(k));
                                    let i = choose|i: int|
                                        0 <= i < out_before.len() && out_before[i].name@ == k;
                                    assert(out@[i].name@ == k);
                                }
                            }
                        }
                        assert forall|k: Seq<char>| #[trigger]
                            self.contexts@.dom().contains(k) implies orig.dom().contains(k)
                                || exists|i: int| 0 <= i < out@.len() && out@[i].stored_as@ == k by {
                            if k == stored_as@ {
                                assert(out@[n].stored_as@ == k);
                            } else if !orig.dom().contains(k) {
                                assert(self_before.dom().contains(k));
                                let i = choose|i: int|
                                    0 <= i < out_before.len() && out_before[i].stored_as@ == k;
                                assert(out@[i].stored_as@ == k);
                            }
                        }
                    }
                },
            }
        }
        out
    }
}

/// In a merge, an imported context whose name was free when it was stored
/// keeps that name and its whole value; one whose name was taken is stored as
/// `name-imported` when that was free, or else as `name-imported-2` when that
/// was free, holding the imported tasks; and every context that existed
/// before keeps its value.
pub proof fn lemma_merge_names(
    before: &ContextManager,
    imported: &ContextManager,
    after: &ContextManager,
    report: Seq<ImportedContext>,
    i: int,
)
    requires
        merged(before, imported, after, report),
        0 <= i < report.len(),
    ensures
        ({
            let taken = taken_after(before.contexts@.dom(), report, i);
            let e = report[i];
            &&& !taken.contains(e.name@) ==> e.stored_as@ == e.name@ && after.contexts@[e.name@]
                == imported.contexts@[e.name@]
            &&& taken.contains(e.name@) && !taken.contains(e.name@ + "-imported"@) ==> e.stored_as@
                == e.name@ + "-imported"@ && after.contexts@[e.stored_as@].1
                == imported.contexts@[e.name@].1
            &&& taken.contains(e.name@) && taken.contains(e.name@ + "-imported"@) && !taken.contains(
                e.name@ + "-imported-2"@,
            ) ==> e.stored_as@ == e.name@ + "-imported-2"@ && after.contexts@[e.stored_as@].1
                == imported.contexts@[e.name@].1
        }),
        forall|k: Seq<char>| #[trigger]
            before.contexts@.dom().contains(k) ==> after.contexts@[k] == before.contexts@[k],
{
    let taken = taken_after(before.contexts@.dom(), report, i);
    let e = report[i];
    assert(stored_by_rule(taken, report[i], imported.contexts@, after.contexts@));
    if taken.contains(e.name@) {
        let c = choose|c: nat| is_first_free(taken, e.name@, c) && e.stored_as@ == imported_name(e.name@, c);
        lemma_collision_names(taken, e.name@, c);
    }
}

} // verus!
