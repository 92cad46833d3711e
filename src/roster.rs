use vstd::prelude::*;

verus! {

/// The names held by a vector of strings, as character sequences.
pub open spec fn names_of(v: Seq<String>) -> Seq<Seq<char>> {
    v.map_values(|s: String| s@)
}

/// The names of `old` that are still live, in their order in `old`.
pub open spec fn kept(old: Seq<Seq<char>>, live: Seq<Seq<char>>) -> Seq<Seq<char>>
    decreases old.len(),
{
    if old.len() == 0 {
        Seq::empty()
    } else {
        let rest = kept(old.drop_last(), live);
        if live.contains(old.last()) {
            rest.push(old.last())
        } else {
            rest
        }
    }
}

/// `acc` followed by each name of `live` that is not there yet, in the order of `live`.
pub open spec fn appended(acc: Seq<Seq<char>>, live: Seq<Seq<char>>) -> Seq<Seq<char>>
    decreases live.len(),
{
    if live.len() == 0 {
        acc
    } else {
        let next = if acc.contains(live[0]) {
            acc
        } else {
            acc.push(live[0])
        };
        appended(next, live.drop_first())
    }
}

/// The roster that follows `old` once `live` is reported as the live sessions.
pub open spec fn reconciled(old: Seq<Seq<char>>, live: Seq<Seq<char>>) -> Seq<Seq<char>> {
    appended(kept(old, live), live)
}

/// `a` stands before `b` in `s`.
pub open spec fn precedes(s: Seq<Seq<char>>, a: Seq<char>, b: Seq<char>) -> bool {
    exists|i: int, j: int| 0 <= i < j < s.len() && s[i] == a && s[j] == b
}

/// The roster after a series of reports of live sessions, one after the other.
pub open spec fn replayed(old: Seq<Seq<char>>, reports: Seq<Seq<Seq<char>>>) -> Seq<Seq<char>>
    decreases reports.len(),
{
    if reports.len() == 0 {
        old
    } else {
        reconciled(replayed(old, reports.drop_last()), reports.last())
    }
}

/// The known sessions, in the order in which they were first seen alive.
pub struct SessionRegistry {
    sessions: Vec<String>,
}

impl View for SessionRegistry {
    type V = Seq<Seq<char>>;

    closed spec fn view(&self) -> Seq<Seq<char>> {
        names_of(self.sessions@)
    }
}

impl SessionRegistry {
    /// No session is named twice.
    #[verifier::type_invariant]
    spec fn no_repeats(self) -> bool {
        names_of(self.sessions@).no_duplicates()
    }

    /// An empty roster.
    pub fn new() -> (r: SessionRegistry)
        ensures
            r@ == Seq::<Seq<char>>::empty(),
    {
        let r = SessionRegistry { sessions: Vec::new() };
        assert(r@ =~= Seq::<Seq<char>>::empty());
        r
    }

    /// The number of known sessions.
    pub fn len(&self) -> (r: usize)
        ensures
            r == self@.len(),
    {
        self.sessions.len()
    }

    /// The known sessions, in roster order.
    pub fn names(&self) -> (r: Vec<String>)
        ensures
            names_of(r@) == self@,
            self@.no_duplicates(),
    {
        proof {
            use_type_invariant(self);
        }
        self.sessions.clone()
    }

    /// The name at position `i` of the roster, if there is one.
    pub fn resolve_index(&self, i: usize) -> (r: Option<String>)
        ensures
            i < self@.len() ==> (r matches Some(n) && n@ == self@[i as int]),
            i >= self@.len() ==> r is None,
    {
        if i < self.sessions.len() {
            Some(self.sessions[i].clone())
        } else {
            None
        }
    }

    /// Brings the roster in line with `live`, the names of all live sessions:
    /// names no longer live leave, the others keep their order, and names not
    /// yet known follow them in the order of `live`.
    pub fn reconcile(&mut self, live: &Vec<String>)
        ensures
            final(self)@ == reconciled(old(self)@, names_of(live@)),
            final(self)@.no_duplicates(),
    {
        proof {
            use_type_invariant(&*self);
        }
        let ghost before = self@;
        let ghost lv = names_of(live@);
        let mut kept_names: Vec<String> = Vec::new();
        let n = self.sessions.len();
        let mut i: usize = 0;
        while i < n
            invariant
                n == self.sessions.len(),
                self@ == before,
                lv == names_of(live@),
                i <= n,
                names_of(kept_names@) == kept(before.take(i as int), lv),
            decreases n - i,
        {
            let present = contains_name(live, &self.sessions[i]);
            assert(before.take(i + 1).drop_last() =~= before.take(i as int));
            let ghost prev = kept_names@;
            if present {
                kept_names.push(self.sessions[i].clone());
                assert(names_of(kept_names@) =~= names_of(prev).push(self@[i as int]));
            }
            i = i + 1;
        }
        assert(before.take(n as int) =~= before);
        proof {
            lemma_kept_no_duplicates(before, lv);
        }
        let m = live.len();
        assert(lv.subrange(0, m as int) =~= lv);
        let mut j: usize = 0;
        while j < m
            invariant
                m == live.len(),
                lv == names_of(live@),
                j <= m,
                appended(names_of(kept_names@), lv.subrange(j as int, m as int)) == reconciled(before, lv),
                names_of(kept_names@).no_duplicates(),
            decreases m - j,
        {
            assert(lv.subrange(j as int, m as int).drop_first() =~= lv.subrange(j + 1, m as int));
            let present = contains_name(&kept_names, &live[j]);
            if !present {
                let ghost prev = kept_names@;
                kept_names.push(live[j].clone());
                assert(names_of(kept_names@) =~= names_of(prev).push(lv[j as int]));
            }
            j = j + 1;
        }
        assert(lv.subrange(m as int, m as int) =~= Seq::<Seq<char>>::empty());
        self.sessions = kept_names;
    }
}

/// Whether `name` is one of the strings of `v`.
fn contains_name(v: &Vec<String>, name: &String) -> (r: bool)
    ensures
        r == names_of(v@).contains(name@),
{
    let mut i: usize = 0;
    while i < v.len()
        invariant
            i <= v.len(),
            forall|k: int| 0 <= k < i ==> v@[k]@ != name@,
        decreases v.len() - i,
    {
        if v[i] == *name {
            assert(names_of(v@)[i as int] == name@);
            return true;
        }
        i = i + 1;
    }
    assert forall|k: int| 0 <= k < names_of(v@).len() implies names_of(v@)[k] != name@ by {}
    false
}

/// Every name that `kept` keeps is one of `old` and one of `live`.
proof fn lemma_kept_contains(old: Seq<Seq<char>>, live: Seq<Seq<char>>, x: Seq<char>)
    ensures
        kept(old, live).contains(x) == (old.contains(x) && live.contains(x)),
    decreases old.len(),
{
    if old.len() > 0 {
        let rest = old.drop_last();
        lemma_kept_contains(rest, live, x);
        assert(old =~= rest.push(old.last()));
        assert(old.contains(x) == (rest.contains(x) || x == old.last())) by {
            if old.contains(x) && x != old.last() {
                let k = choose|k: int| 0 <= k < old.len() && old[k] == x;
                assert(rest[k] == x);
            }
            if rest.contains(x) {
                let k = choose|k: int| 0 <= k < rest.len() && rest[k] == x;
                assert(old[k] == x);
            }
            if x == old.last() {
                assert(old[old.len() - 1] == x);
            }
        }
        let kr = kept(rest, live);
        if live.contains(old.last()) {
            assert(kr.push(old.last()).contains(x) == (kr.contains(x) || x == old.last())) by {
                if kr.push(old.last()).contains(x) && x != old.last() {
                    let k = choose|k: int| 0 <= k < kr.len() + 1 && kr.push(old.last())[k] == x;
                    assert(kr[k] == x);
                }
                if kr.contains(x) {
                    let k = choose|k: int| 0 <= k < kr.len() && kr[k] == x;
                    assert(kr.push(old.last())[k] == x);
                }
                if x == old.last() {
                    assert(kr.push(old.last())[kr.len() as int] == x);
                }
            }
        }
    }
}

/// `kept` repeats no name that `old` did not repeat.
proof fn lemma_kept_no_duplicates(old: Seq<Seq<char>>, live: Seq<Seq<char>>)
    requires
        old.no_duplicates(),
    ensures
        kept(old, live).no_duplicates(),
    decreases old.len(),
{
    if old.len() > 0 {
        let rest = old.drop_last();
        assert(rest.no_duplicates());
        lemma_kept_no_duplicates(rest, live);
        lemma_kept_contains(rest, live, old.last());
        assert(!rest.contains(old.last()));
    }
}

/// Every name that `appended` holds comes from `acc` or from `live`, and all of them are there.
proof fn lemma_appended_contains(acc: Seq<Seq<char>>, live: Seq<Seq<char>>, x: Seq<char>)
    ensures
        appended(acc, live).contains(x) == (acc.contains(x) || live.contains(x)),
    decreases live.len(),
{
    broadcast use vstd::seq_lib::lemma_seq_contains_after_push;

    if live.len() > 0 {
        let next = if acc.contains(live[0]) {
            acc
        } else {
            acc.push(live[0])
        };
        lemma_appended_contains(next, live.drop_first(), x);
        lemma_first_or_rest(live, x);
    }
}

/// A name of a non-empty sequence is its first one or one of the rest.
proof fn lemma_first_or_rest(s: Seq<Seq<char>>, x: Seq<char>)
    requires
        s.len() > 0,
    ensures
        s.contains(x) == (s[0] == x || s.drop_first().contains(x)),
{
    if s.contains(x) && s[0] != x {
        let k = choose|k: int| 0 <= k < s.len() && s[k] == x;
        assert(s.drop_first()[k - 1] == x);
    }
    if s.drop_first().contains(x) {
        let k = choose|k: int| 0 <= k < s.len() - 1 && s.drop_first()[k] == x;
        assert(s[k + 1] == x);
    }
}

/// `appended` only adds names at the end of `acc`.
proof fn lemma_appended_prefix(acc: Seq<Seq<char>>, live: Seq<Seq<char>>)
    ensures
        appended(acc, live).len() >= acc.len(),
        appended(acc, live).take(acc.len() as int) == acc,
    decreases live.len(),
{
    if live.len() > 0 {
        let next = if acc.contains(live[0]) {
            acc
        } else {
            acc.push(live[0])
        };
        lemma_appended_prefix(next, live.drop_first());
        let r = appended(acc, live);
        assert(r.take(acc.len() as int) =~= next.take(acc.len() as int));
        assert(next.take(acc.len() as int) =~= acc);
    }
}

/// `appended` adds nothing when every name of `live` is known already.
proof fn lemma_appended_covered(acc: Seq<Seq<char>>, live: Seq<Seq<char>>)
    requires
        forall|k: int| 0 <= k < live.len() ==> acc.contains(#[trigger] live[k]),
    ensures
        appended(acc, live) == acc,
    decreases live.len(),
{
    if live.len() > 0 {
        assert(acc.contains(live[0]));
        let rest = live.drop_first();
        assert forall|k: int| 0 <= k < rest.len() implies acc.contains(#[trigger] rest[k]) by {
            assert(rest[k] == live[k + 1]);
        }
        lemma_appended_covered(acc, rest);
    }
}

/// `kept` keeps everything when every name is live.
proof fn lemma_kept_all_live(s: Seq<Seq<char>>, live: Seq<Seq<char>>)
    requires
        forall|k: int| 0 <= k < s.len() ==> live.contains(#[trigger] s[k]),
    ensures
        kept(s, live) == s,
    decreases s.len(),
{
    if s.len() > 0 {
        let rest = s.drop_last();
        assert forall|k: int| 0 <= k < rest.len() implies live.contains(#[trigger] rest[k]) by {
            assert(rest[k] == s[k]);
        }
        lemma_kept_all_live(rest, live);
        assert(live.contains(s[s.len() - 1]));
        assert(rest.push(s.last()) =~= s);
    }
}

/// An order between two names survives anything added at the end.
proof fn lemma_precedes_prefix(s: Seq<Seq<char>>, t: Seq<Seq<char>>, a: Seq<char>, b: Seq<char>)
    requires
        precedes(s, a, b),
        t.len() >= s.len(),
        t.take(s.len() as int) == s,
    ensures
        precedes(t, a, b),
{
    let (i, j) = choose|i: int, j: int| 0 <= i < j < s.len() && s[i] == a && s[j] == b;
    assert(t.take(s.len() as int)[i] == t[i]);
    assert(t.take(s.len() as int)[j] == t[j]);
}

/// `kept` keeps the order of the names it keeps.
proof fn lemma_kept_order(old: Seq<Seq<char>>, live: Seq<Seq<char>>, a: Seq<char>, b: Seq<char>)
    requires
        precedes(old, a, b),
        live.contains(a),
        live.contains(b),
    ensures
        precedes(kept(old, live), a, b),
    decreases old.len(),
{
    let (i, j) = choose|i: int, j: int| 0 <= i < j < old.len() && old[i] == a && old[j] == b;
    let rest = old.drop_last();
    let kr = kept(rest, live);
    if j < old.len() - 1 {
        assert(rest[i] == a && rest[j] == b);
        lemma_kept_order(rest, live, a, b);
        let (p, q) = choose|p: int, q: int| 0 <= p < q < kr.len() && kr[p] == a && kr[q] == b;
        assert(kr.push(old.last())[p] == a && kr.push(old.last())[q] == b);
    } else {
        assert(rest[i] == a);
        lemma_kept_contains(rest, live, a);
        let p = choose|p: int| 0 <= p < kr.len() && kr[p] == a;
        assert(kr.push(old.last())[p] == a);
        assert(kr.push(old.last())[kr.len() as int] == b);
    }
}

/// A name first met at position `j` of `live` and not known before comes after
/// every name of `acc` and after every name that `live` gives before it.
proof fn lemma_appended_after(acc: Seq<Seq<char>>, live: Seq<Seq<char>>, j: int, x: Seq<char>)
    requires
        0 <= j < live.len(),
        !acc.contains(live[j]),
        !live.take(j).contains(live[j]),
        acc.contains(x) || live.take(j).contains(x),
    ensures
        precedes(appended(acc, live), x, live[j]),
    decreases live.len(),
{
    broadcast use vstd::seq_lib::lemma_seq_contains_after_push;

    let y = live[j];
    let next = if acc.contains(live[0]) {
        acc
    } else {
        acc.push(live[0])
    };
    let rest = live.drop_first();
    if j == 0 {
        assert(live.take(0) =~= Seq::<Seq<char>>::empty());
        let k = choose|k: int| 0 <= k < acc.len() && acc[k] == x;
        assert(next[k] == x && next[acc.len() as int] == y);
        lemma_appended_prefix(next, rest);
        lemma_precedes_prefix(next, appended(next, rest), x, y);
    } else {
        assert(live.take(j) =~= seq![live[0]].add(rest.take(j - 1)));
        assert(rest[j - 1] == y);
        assert(live[0] != y) by {
            assert(live.take(j)[0] == live[0]);
        }
        assert(!rest.take(j - 1).contains(y)) by {
            let rt = rest.take(j - 1);
            if rt.contains(y) {
                let k = choose|k: int| 0 <= k < rt.len() && rt[k] == y;
                assert(live.take(j)[k + 1] == y);
            }
        }
        assert(next.contains(x) || rest.take(j - 1).contains(x)) by {
            if live.take(j).contains(x) && !acc.contains(x) {
                let lt = live.take(j);
                let k = choose|k: int| 0 <= k < lt.len() && lt[k] == x;
                if k == 0 {
                    assert(next[next.len() - 1] == x);
                } else {
                    assert(rest.take(j - 1)[k - 1] == x);
                    assert(rest.take(j - 1).contains(x));
                }
            }
        }
        lemma_appended_after(next, rest, j - 1, x);
    }
}

/// After a report of live sessions, the roster holds exactly the live names.
pub proof fn lemma_reconciled_contents(old: Seq<Seq<char>>, live: Seq<Seq<char>>, x: Seq<char>)
    ensures
        reconciled(old, live).contains(x) == live.contains(x),
{
    lemma_appended_contains(kept(old, live), live, x);
    lemma_kept_contains(old, live, x);
}

/// Reporting the same live sessions a second time leaves the roster as it is.
pub proof fn lemma_reconcile_idempotent(old: Seq<Seq<char>>, live: Seq<Seq<char>>)
    ensures
        reconciled(reconciled(old, live), live) == reconciled(old, live),
{
    let r = reconciled(old, live);
    assert forall|k: int| 0 <= k < r.len() implies live.contains(#[trigger] r[k]) by {
        assert(r.contains(r[k]));
        lemma_reconciled_contents(old, live, r[k]);
    }
    lemma_kept_all_live(r, live);
    assert forall|k: int| 0 <= k < live.len() implies r.contains(#[trigger] live[k]) by {
        assert(live.contains(live[k]));
        lemma_reconciled_contents(old, live, live[k]);
    }
    lemma_appended_covered(r, live);
}

/// Two names that stay live keep their order in the roster.
pub proof fn lemma_reconcile_keeps_order(
    old: Seq<Seq<char>>,
    live: Seq<Seq<char>>,
    a: Seq<char>,
    b: Seq<char>,
)
    requires
        precedes(old, a, b),
        live.contains(a),
        live.contains(b),
    ensures
        precedes(reconciled(old, live), a, b),
{
    lemma_kept_order(old, live, a, b);
    lemma_appended_prefix(kept(old, live), live);
    lemma_precedes_prefix(kept(old, live), reconciled(old, live), a, b);
}

/// Over any series of reports, two names live in each of them keep their order.
pub proof fn lemma_replay_keeps_order(
    old: Seq<Seq<char>>,
    reports: Seq<Seq<Seq<char>>>,
    a: Seq<char>,
    b: Seq<char>,
)
    requires
        precedes(old, a, b),
        forall|k: int| 0 <= k < reports.len() ==> #[trigger] reports[k].contains(a) && reports[k].contains(b),
    ensures
        precedes(replayed(old, reports), a, b),
    decreases reports.len(),
{
    if reports.len() > 0 {
        let rest = reports.drop_last();
        assert forall|k: int| 0 <= k < rest.len() implies #[trigger] rest[k].contains(a) && rest[k].contains(b) by {
            assert(rest[k] == reports[k]);
        }
        lemma_replay_keeps_order(old, rest, a, b);
        assert(reports[reports.len() - 1].contains(a));
        lemma_reconcile_keeps_order(replayed(old, rest), reports.last(), a, b);
    }
}

/// A name that was not known, first given at position `j` of the report, comes
/// after every known name that stays and after every name the report gives before it.
pub proof fn lemma_reconcile_appends_new(old: Seq<Seq<char>>, live: Seq<Seq<char>>, j: int)
    requires
        0 <= j < live.len(),
        !old.contains(live[j]),
        !live.take(j).contains(live[j]),
    ensures
        forall|x: Seq<char>| old.contains(x) && live.contains(x) ==> #[trigger] precedes(reconciled(old, live), x, live[j]),
        forall|i: int| 0 <= i < j ==> #[trigger] precedes(reconciled(old, live), live[i], live[j]),
{
    let acc = kept(old, live);
    lemma_kept_contains(old, live, live[j]);
    assert forall|x: Seq<char>| old.contains(x) && live.contains(x) implies #[trigger] precedes(reconciled(old, live), x, live[j]) by {
        lemma_kept_contains(old, live, x);
        lemma_appended_after(acc, live, j, x);
    }
    assert forall|i: int| 0 <= i < j implies #[trigger] precedes(reconciled(old, live), live[i], live[j]) by {
        assert(live.take(j)[i] == live[i]);
        lemma_appended_after(acc, live, j, live[i]);
    }
}

/// A name missing from a report leaves the roster; when a later report brings it
/// back, it comes after every name that stayed.
pub proof fn lemma_reconcile_removes_then_appends(
    old: Seq<Seq<char>>,
    first: Seq<Seq<char>>,
    second: Seq<Seq<char>>,
    j: int,
)
    requires
        0 <= j < second.len(),
        !first.contains(second[j]),
        !second.take(j).contains(second[j]),
    ensures
        !reconciled(old, first).contains(second[j]),
        forall|x: Seq<char>| reconciled(old, first).contains(x) && second.contains(x)
            ==> #[trigger] precedes(reconciled(reconciled(old, first), second), x, second[j]),
{
    lemma_reconciled_contents(old, first, second[j]);
    lemma_reconcile_appends_new(reconciled(old, first), second, j);
}

/// What `appended` adds after `acc` holds no name of `acc`.
proof fn lemma_appended_tail(acc: Seq<Seq<char>>, live: Seq<Seq<char>>, p: int)
    requires
        acc.len() <= p < appended(acc, live).len(),
    ensures
        !acc.contains(appended(acc, live)[p]),
    decreases live.len(),
{
    broadcast use vstd::seq_lib::lemma_seq_contains_after_push;

    let next = if acc.contains(live[0]) {
        acc
    } else {
        acc.push(live[0])
    };
    let rest = live.drop_first();
    lemma_appended_prefix(next, rest);
    if p >= next.len() {
        lemma_appended_tail(next, rest, p);
    } else {
        assert(appended(next, rest).take(next.len() as int)[p] == next[p]);
    }
}

/// After a report, the roster is the known names that stay, in their old order,
/// followed by names that were not known before.
pub proof fn lemma_reconcile_layout(old: Seq<Seq<char>>, live: Seq<Seq<char>>)
    ensures
        reconciled(old, live).len() >= kept(old, live).len(),
        reconciled(old, live).take(kept(old, live).len() as int) == kept(old, live),
        forall|p: int|
            kept(old, live).len() <= p < reconciled(old, live).len() ==> !old.contains(
                #[trigger] reconciled(old, live)[p],
            ),
{
    let acc = kept(old, live);
    lemma_appended_prefix(acc, live);
    assert forall|p: int| acc.len() <= p < reconciled(old, live).len() implies !old.contains(
        #[trigger] reconciled(old, live)[p],
    ) by {
        let x = reconciled(old, live)[p];
        lemma_appended_tail(acc, live, p);
        assert(reconciled(old, live).contains(x));
        lemma_reconciled_contents(old, live, x);
        lemma_kept_contains(old, live, x);
    }
}

} // verus!
