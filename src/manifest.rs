use vstd::prelude::*;
use vstd::set_lib::{lemma_int_range, lemma_len_subset, set_int_range};

verus! {

/// A part whose upload finished: its sequence number and the tag that the
/// destination gave it.
pub struct CompletedPart {
    pub number: u64,
    pub tag: String,
}

impl View for CompletedPart {
    type V = (u64, Seq<char>);

    open spec fn view(&self) -> (u64, Seq<char>) {
        (self.number, self.tag@)
    }
}

/// Why finished uploads cannot be assembled into a completion manifest.
#[derive(Debug, Clone, Copy, PartialEq, Eq, Structural)]
pub enum ManifestError {
    /// A number outside `1..=n`, for `n` finished parts.
    OutOfRange(u64),
    /// A number that two finished parts share.
    Duplicate(u64),
}

/// The views of `done`, in order.
pub open spec fn views_of(done: Seq<CompletedPart>) -> Seq<(u64, Seq<char>)> {
    done.map_values(|p: CompletedPart| p@)
}

/// Some finished part has number `k`.
pub open spec fn has_number(done: Seq<(u64, Seq<char>)>, k: int) -> bool {
    exists|i: int| 0 <= i < done.len() && done[i].0 == k
}

/// The numbers of `done` are exactly `1..=n`, each once, for `n` entries:
/// contiguous from 1, with no gap and no overlap.
pub open spec fn contiguous(done: Seq<(u64, Seq<char>)>) -> bool {
    &&& forall|i: int| 0 <= i < done.len() ==> 1 <= #[trigger] done[i].0 <= done.len()
    &&& forall|i: int, j: int|
        0 <= i < done.len() && 0 <= j < done.len() && i != j ==> #[trigger] done[i].0
            != #[trigger] done[j].0
    &&& forall|k: int| 1 <= k <= done.len() ==> #[trigger] has_number(done, k)
}

/// The entry of `done` with number `k`.
pub open spec fn entry_with(done: Seq<(u64, Seq<char>)>, k: int) -> (u64, Seq<char>) {
    done[choose|i: int| 0 <= i < done.len() && done[i].0 == k]
}

/// The completion manifest: the entries of `done` ordered by number.
pub open spec fn manifest_of(done: Seq<(u64, Seq<char>)>) -> Seq<(u64, Seq<char>)> {
    Seq::new(done.len(), |j: int| entry_with(done, j + 1))
}

/// Orders finished part uploads by sequence number into the manifest that
/// completes the upload. It succeeds exactly when the numbers are `1..=n`,
/// each once; the order in which the uploads finished does not matter.
pub fn build_manifest(done: &Vec<CompletedPart>) -> (r: Result<Vec<CompletedPart>, ManifestError>)
    ensures
        r.is_ok() <==> contiguous(views_of(done@)),
        r matches Ok(m) ==> views_of(m@) == manifest_of(views_of(done@)),
        r matches Err(ManifestError::OutOfRange(k)) ==> {
            &&& has_number(views_of(done@), k as int)
            &&& (k == 0 || k > done@.len())
        },
        r matches Err(ManifestError::Duplicate(k)) ==> exists|i: int, j: int|
            0 <= i < j < done@.len() && done@[i].number == k && done@[j].number == k,
{
    let ghost dv = views_of(done@);
    let n = done.len();
    let mut slots: Vec<Option<String>> = Vec::new();
    while slots.len() < n
        invariant
            slots@.len() <= n,
            forall|j: int| 0 <= j < slots@.len() ==> #[trigger] slots@[j] == Option::<String>::None,
        decreases n - slots@.len(),
    {
        slots.push(None);
    }
    assert(dv.len() == n);
    let mut i: usize = 0;
    while i < n
        invariant
            n == done@.len(),
            dv == views_of(done@),
            slots@.len() == n,
            0 <= i <= n,
            forall|a: int| 0 <= a < i ==> 1 <= #[trigger] dv[a].0 <= n,
            forall|a: int, b: int| 0 <= a < i && 0 <= b < i && a != b ==> #[trigger] dv[a].0 != #[trigger] dv[b].0,
            forall|j: int|
                0 <= j < n ==> (#[trigger] slots@[j] matches Some(t) ==> exists|a: int|
                    0 <= a < i && dv[a].0 == j + 1 && dv[a].1 == t@),
            forall|j: int|
                0 <= j < n ==> (#[trigger] slots@[j].is_some() <==> exists|a: int|
                    0 <= a < i && dv[a].0 == j + 1),
        decreases n - i,
    {
        let k = done[i].number;
        assert(dv[i as int] == done@[i as int]@);
        if k == 0 || k > n as u64 {
            assert(has_number(dv, k as int));
            return Err(ManifestError::OutOfRange(k));
        }
        let idx = (k - 1) as usize;
        if slots[idx].is_some() {
            let ghost a = choose|a: int| 0 <= a < i && dv[a].0 == idx + 1;
            assert(done@[a].number == k);
            return Err(ManifestError::Duplicate(k));
        }
        let tag = done[i].tag.clone();
        slots.set(idx, Some(tag));
        i = i + 1;
    }
    proof {
        lemma_distinct_in_range_covers(dv);
    }
    let mut m: Vec<CompletedPart> = Vec::new();
    let mut j: usize = 0;
    while j < n
        invariant
            n == done@.len(),
            dv == views_of(done@),
            slots@.len() == n,
            0 <= j <= n,
            forall|a: int| 0 <= a < n ==> 1 <= #[trigger] dv[a].0 <= n,
            forall|a: int, b: int| 0 <= a < n && 0 <= b < n && a != b ==> #[trigger] dv[a].0 != #[trigger] dv[b].0,
            forall|q: int|
                0 <= q < n ==> (#[trigger] slots@[q] matches Some(t) ==> exists|a: int|
                    0 <= a < n && dv[a].0 == q + 1 && dv[a].1 == t@),
            forall|q: int|
                0 <= q < n ==> (#[trigger] slots@[q].is_some() <==> exists|a: int|
                    0 <= a < n && dv[a].0 == q + 1),
            forall|k: int| 1 <= k <= n ==> #[trigger] has_number(dv, k),
            m@.len() == j,
            forall|q: int| 0 <= q < j ==> #[trigger] m@[q]@ == entry_with(dv, q + 1),
        decreases n - j,
    {
        match &slots[j] {
            None => {
                proof {
                    assert(has_number(dv, j + 1));
                    let a = choose|a: int| 0 <= a < dv.len() && dv[a].0 == j + 1;
                    assert(!slots@[j as int].is_some());
                }
                return vstd::pervasive::unreached();
            },
            Some(t) => {
                let ghost a = choose|a: int| 0 <= a < n && dv[a].0 == j + 1 && dv[a].1 == t@;
                assert(has_number(dv, j + 1));
                let ghost b = choose|b: int| 0 <= b < dv.len() && dv[b].0 == j + 1;
                assert(a == b);
                m.push(CompletedPart { number: (j + 1) as u64, tag: t.clone() });
                j = j + 1;
            },
        }
    }
    assert(views_of(m@) =~= manifest_of(dv));
    Ok(m)
}

/// `n` distinct numbers in `1..=n` are all of them.
proof fn lemma_distinct_in_range_covers(done: Seq<(u64, Seq<char>)>)
    requires
        forall|i: int| 0 <= i < done.len() ==> 1 <= #[trigger] done[i].0 <= done.len(),
        forall|i: int, j: int|
            0 <= i < done.len() && 0 <= j < done.len() && i != j ==> #[trigger] done[i].0
                != #[trigger] done[j].0,
    ensures
        forall|k: int| 1 <= k <= done.len() ==> #[trigger] has_number(done, k),
{
    let n = done.len() as int;
    let nums = done.map_values(|e: (u64, Seq<char>)| e.0 as int);
    assert(nums.no_duplicates());
    nums.unique_seq_to_set();
    assert forall|k: int| 1 <= k <= n implies #[trigger] has_number(done, k) by {
        if !has_number(done, k) {
            let range = set_int_range(1, n + 1).remove(k);
            lemma_int_range(1, n + 1);
            assert forall|x: int| nums.to_set().contains(x) implies range.contains(x) by {
                let i = choose|i: int| 0 <= i < nums.len() && nums[i] == x;
                assert(done[i].0 == x);
            }
            lemma_len_subset(nums.to_set(), range);
        }
    }
}

/// The manifest depends only on which parts finished, not on the order in
/// which they finished: two completion orders of the same finished parts
/// give the same manifest.
pub proof fn lemma_manifest_order_independent(a: Seq<(u64, Seq<char>)>, b: Seq<(u64, Seq<char>)>)
    requires
        a.to_multiset() == b.to_multiset(),
        contiguous(a),
    ensures
        contiguous(b),
        manifest_of(a) == manifest_of(b),
{
    a.to_multiset_ensures();
    b.to_multiset_ensures();
    assert(a.len() == b.len());
    assert forall|x: (u64, Seq<char>)| a.contains(x) <==> b.contains(x) by {
        assert(a.to_multiset().count(x) == b.to_multiset().count(x));
    }
    assert forall|i: int| 0 <= i < b.len() implies 1 <= #[trigger] b[i].0 <= b.len() by {
        assert(b.contains(b[i]));
    }
    assert forall|k: int| 1 <= k <= b.len() implies #[trigger] has_number(b, k) by {
        assert(has_number(a, k));
        let i = choose|i: int| 0 <= i < a.len() && a[i].0 == k;
        assert(a.contains(a[i]));
    }
    assert forall|i: int, j: int| 0 <= i < a.len() && 0 <= j < a.len() && i != j implies a[i]
        != a[j] by {
        assert(a[i].0 != a[j].0);
    }
    a.lemma_multiset_has_no_duplicates();
    assert forall|x: (u64, Seq<char>)| b.to_multiset().contains(x) implies b.to_multiset().count(x)
        == 1 by {
        assert(a.to_multiset().contains(x));
    }
    b.lemma_multiset_has_no_duplicates_conv();
    assert forall|i: int, j: int|
        0 <= i < b.len() && 0 <= j < b.len() && i != j implies #[trigger] b[i].0
            != #[trigger] b[j].0 by {
        if b[i].0 == b[j].0 {
            assert(b.contains(b[i]));
            assert(b.contains(b[j]));
            let ai = choose|x: int| 0 <= x < a.len() && a[x] == b[i];
            let aj = choose|x: int| 0 <= x < a.len() && a[x] == b[j];
            assert(a[ai].0 == a[aj].0);
        }
    }
    assert forall|j: int| 0 <= j < a.len() implies manifest_of(a)[j] == manifest_of(b)[j] by {
        let k = j + 1;
        assert(has_number(a, k));
        assert(has_number(b, k));
        let ea = entry_with(a, k);
        let eb = entry_with(b, k);
        assert(a.contains(ea));
        assert(b.contains(ea));
        let ib = choose|x: int| 0 <= x < b.len() && b[x] == ea;
        let cb = choose|x: int| 0 <= x < b.len() && b[x].0 == k;
        assert(ib == cb);
    }
    assert(manifest_of(a) =~= manifest_of(b));
}

} // verus!
