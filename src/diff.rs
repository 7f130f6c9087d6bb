use vstd::prelude::*;

verus! {

/// An object as a listing reports it: its key and its size in bytes.
pub struct ObjectDescriptor {
    pub key: String,
    pub size: u64,
}

impl View for ObjectDescriptor {
    type V = (Seq<char>, u64);

    open spec fn view(&self) -> (Seq<char>, u64) {
        (self.key@, self.size)
    }
}

/// The views of a listing, in order.
pub open spec fn listing_view(objects: Seq<ObjectDescriptor>) -> Seq<(Seq<char>, u64)> {
    objects.map_values(|o: ObjectDescriptor| o@)
}

/// The views of a list of keys, in order.
pub open spec fn keys_view(keys: Seq<String>) -> Seq<Seq<char>> {
    keys.map_values(|k: String| k@)
}

/// The objects of `source`, in order, whose key is not in `dest`.
pub open spec fn pending_of(source: Seq<(Seq<char>, u64)>, dest: Seq<Seq<char>>) -> Seq<(Seq<char>, u64)>
    decreases source.len(),
{
    if source.len() == 0 {
        Seq::empty()
    } else {
        let rest = pending_of(source.drop_last(), dest);
        if dest.contains(source.last().0) {
            rest
        } else {
            rest.push(source.last())
        }
    }
}

/// The keys of a listing, as a set.
pub open spec fn key_set(objects: Seq<(Seq<char>, u64)>) -> Set<Seq<char>> {
    Set::new(|k: Seq<char>| exists|i: int| 0 <= i < objects.len() && objects[i].0 == k)
}

/// Whether `key` is one of `keys`, compared exactly.
pub fn contains_key(keys: &Vec<String>, key: &String) -> (r: bool)
    ensures
        r == keys_view(keys@).contains(key@),
{
    let mut i: usize = 0;
    while i < keys.len()
        invariant
            0 <= i <= keys@.len(),
            forall|j: int| 0 <= j < i ==> keys@[j]@ != key@,
        decreases keys@.len() - i,
    {
        if keys[i] == *key {
            assert(keys_view(keys@)[i as int] == key@);
            return true;
        }
        i = i + 1;
    }
    proof {
        if keys_view(keys@).contains(key@) {
            let j = choose|j: int| 0 <= j < keys@.len() && keys_view(keys@)[j] == key@;
            assert(keys@[j]@ != key@);
        }
    }
    false
}

/// The objects of the source listing still to be sent: those whose key the
/// destination listing lacks, in the source's order.
pub fn pending(source: &Vec<ObjectDescriptor>, dest_keys: &Vec<String>) -> (r: Vec<ObjectDescriptor>)
    ensures
        listing_view(r@) == pending_of(listing_view(source@), keys_view(dest_keys@)),
{
    let ghost src = listing_view(source@);
    let ghost dst = keys_view(dest_keys@);
    let mut r: Vec<ObjectDescriptor> = Vec::new();
    let mut i: usize = 0;
    while i < source.len()
        invariant
            0 <= i <= source@.len(),
            src == listing_view(source@),
            dst == keys_view(dest_keys@),
            listing_view(r@) == pending_of(src.take(i as int), dst),
        decreases source@.len() - i,
    {
        let o = &source[i];
        let ghost before = r@;
        assert(src.take(i + 1).drop_last() =~= src.take(i as int));
        assert(src.take(i + 1).last() == o@);
        if !contains_key(dest_keys, &o.key) {
            r.push(ObjectDescriptor { key: o.key.clone(), size: o.size });
            assert(listing_view(r@) =~= listing_view(before).push(o@));
        }
        i = i + 1;
    }
    assert(src.take(source@.len() as int) =~= src);
    r
}

proof fn lemma_key_set_push(s: Seq<(Seq<char>, u64)>, x: (Seq<char>, u64))
    ensures
        key_set(s.push(x)) == key_set(s).insert(x.0),
{
    assert forall|k: Seq<char>| key_set(s.push(x)).contains(k) implies key_set(s).insert(x.0).contains(k) by {
        let i = choose|i: int| 0 <= i < s.len() + 1 && s.push(x)[i].0 == k;
        if i < s.len() {
            assert(s[i] == s.push(x)[i]);
        }
    }
    assert forall|k: Seq<char>| key_set(s).insert(x.0).contains(k) implies key_set(s.push(x)).contains(k) by {
        if k == x.0 {
            assert(s.push(x)[s.len() as int] == x);
        } else {
            let i = choose|i: int| 0 <= i < s.len() && s[i].0 == k;
            assert(s.push(x)[i] == s[i]);
        }
    }
    assert(key_set(s.push(x)) =~= key_set(s).insert(x.0));
}

/// The keys still to send are exactly the source's keys less the
/// destination's: nothing is pending for an empty source, and everything is
/// for an empty destination.
pub proof fn lemma_pending_is_difference(source: Seq<(Seq<char>, u64)>, dest: Seq<Seq<char>>)
    ensures
        key_set(pending_of(source, dest)) == key_set(source).difference(dest.to_set()),
        source.len() == 0 ==> pending_of(source, dest).len() == 0,
        dest.len() == 0 ==> pending_of(source, dest) == source,
    decreases source.len(),
{
    if source.len() == 0 {
        assert(key_set(source) =~= Set::<Seq<char>>::empty());
        assert(key_set(pending_of(source, dest)) =~= Set::<Seq<char>>::empty());
        assert(key_set(source).difference(dest.to_set()) =~= Set::<Seq<char>>::empty());
    } else {
        let init = source.drop_last();
        let x = source.last();
        lemma_pending_is_difference(init, dest);
        assert(init.push(x) =~= source);
        lemma_key_set_push(init, x);
        if dest.contains(x.0) {
            assert(key_set(pending_of(source, dest)) =~= key_set(source).difference(dest.to_set()));
        } else {
            lemma_key_set_push(pending_of(init, dest), x);
            assert(key_set(pending_of(source, dest)) =~= key_set(source).difference(dest.to_set()));
        }
    }
}

} // verus!
