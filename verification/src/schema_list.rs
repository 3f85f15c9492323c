use vstd::prelude::*;

verus! {

/// The chars of each string.
pub open spec fn strings_view(v: Seq<String>) -> Seq<Seq<char>> {
    v.map_values(|s: String| s@)
}

/// The requested schemata that the schema list lacks, in request order.
pub open spec fn schemata_to_add(requested: Seq<Seq<char>>, existing: Seq<Seq<char>>) -> Seq<
    Seq<char>,
> {
    requested.filter(|s: Seq<char>| !existing.contains(s))
}

/// `s` is among `list`.
fn contains_string(list: &[String], s: &String) -> (r: bool)
    ensures
        r == strings_view(list@).contains(s@),
{
    let ghost lv = strings_view(list@);
    let mut i: usize = 0;
    while i < list.len()
        invariant
            i <= list.len(),
            lv == strings_view(list@),
            forall|j: int| 0 <= j < i ==> lv[j] != s@,
        decreases list.len() - i,
    {
        if list[i] == *s {
            assert(lv[i as int] == s@);
            return true;
        }
        i = i + 1;
    }
    proof {
        if lv.contains(s@) {
            let j = choose|j: int| 0 <= j < lv.len() && lv[j] == s@;
            assert(lv[j] != s@);
        }
    }
    false
}

/// The requested schemata that are not in the schema list yet, in request order:
/// those that adding to the list appends.
pub fn new_schemata(requested: &[String], existing: &[String]) -> (added: Vec<String>)
    ensures
        strings_view(added@) == schemata_to_add(strings_view(requested@), strings_view(existing@)),
{
    let ghost rv = strings_view(requested@);
    let ghost ev = strings_view(existing@);
    let ghost pred = |s: Seq<char>| !ev.contains(s);
    let mut added: Vec<String> = Vec::new();
    let mut k: usize = 0;
    proof {
        reveal(Seq::filter);
        assert(rv.take(0).filter(pred) =~= Seq::<Seq<char>>::empty());
        assert(strings_view(added@) =~= Seq::<Seq<char>>::empty());
    }
    while k < requested.len()
        invariant
            k <= requested.len(),
            rv == strings_view(requested@),
            ev == strings_view(existing@),
            pred == (|s: Seq<char>| !ev.contains(s)),
            strings_view(added@) == rv.take(k as int).filter(pred),
        decreases requested.len() - k,
    {
        let ghost before = strings_view(added@);
        proof {
            reveal(Seq::filter);
            assert(rv.take(k + 1).drop_last() =~= rv.take(k as int));
            assert(rv.take(k + 1).last() == rv[k as int]);
        }
        if !contains_string(existing, &requested[k]) {
            added.push(requested[k].clone());
            proof {
                assert(strings_view(added@) =~= before.push(rv[k as int]));
            }
        }
        k = k + 1;
    }
    assert(rv.take(requested.len() as int) =~= rv);
    added
}

/// Nothing that adding appends is in the schema list already, and everything it
/// appends was requested.
pub proof fn law_added_schemata_are_new(requested: Seq<Seq<char>>, existing: Seq<Seq<char>>)
    ensures
        forall|i: int|
            0 <= i < schemata_to_add(requested, existing).len() ==> !existing.contains(
                #[trigger] schemata_to_add(requested, existing)[i],
            ) && requested.contains(schemata_to_add(requested, existing)[i]),
{
    let pred = |s: Seq<char>| !existing.contains(s);
    let added = requested.filter(pred);
    assert forall|i: int| 0 <= i < added.len() implies !existing.contains(#[trigger] added[i])
        && requested.contains(added[i]) by {
        requested.lemma_filter_pred(pred, i);
        assert(added.contains(added[i]));
        requested.lemma_filter_contains_rev(pred, added[i]);
    }
}

/// Adding the same schemata a second time, to the list that the first adding gave,
/// appends nothing.
pub proof fn law_adding_twice_adds_nothing(requested: Seq<Seq<char>>, existing: Seq<Seq<char>>)
    ensures
        schemata_to_add(requested, existing + schemata_to_add(requested, existing)).len() == 0,
{
    let first = schemata_to_add(requested, existing);
    let list = existing + first;
    let pred = |s: Seq<char>| !list.contains(s);
    let again = requested.filter(pred);
    if again.len() > 0 {
        let s = again[0];
        requested.lemma_filter_pred(pred, 0);
        assert(again.contains(s));
        requested.lemma_filter_contains_rev(pred, s);
        let k = choose|k: int| 0 <= k < requested.len() && requested[k] == s;
        if existing.contains(s) {
            let j = choose|j: int| 0 <= j < existing.len() && existing[j] == s;
            assert(list[j] == s);
        } else {
            let p1 = |x: Seq<char>| !existing.contains(x);
            assert(p1(requested[k]));
            requested.lemma_filter_contains(p1, k);
            let j = choose|j: int| 0 <= j < first.len() && first[j] == s;
            assert(list[existing.len() + j] == s);
        }
    }
}

/// Requesting nothing appends nothing.
pub proof fn law_adding_nothing(existing: Seq<Seq<char>>)
    ensures
        schemata_to_add(Seq::empty(), existing) == Seq::<Seq<char>>::empty(),
{
    reveal(Seq::filter);
}

/// Requesting one more schema appends it after the others exactly when no entry of
/// the list equals it.
pub proof fn law_adding_one_more(requested: Seq<Seq<char>>, s: Seq<char>, existing: Seq<Seq<char>>)
    ensures
        schemata_to_add(requested.push(s), existing) == schemata_to_add(requested, existing) + if existing.contains(s) {
            Seq::<Seq<char>>::empty()
        } else {
            seq![s]
        },
{
    reveal(Seq::filter);
    assert(requested.push(s).drop_last() =~= requested);
    let before = schemata_to_add(requested, existing);
    if existing.contains(s) {
        assert(before + Seq::<Seq<char>>::empty() =~= before);
    } else {
        assert(before + seq![s] =~= before.push(s));
    }
}

/// Every requested schema that equals no entry of the list is appended.
pub proof fn law_unlisted_schemata_are_added(requested: Seq<Seq<char>>, existing: Seq<Seq<char>>, k: int)
    requires
        0 <= k < requested.len(),
        !existing.contains(requested[k]),
    ensures
        schemata_to_add(requested, existing).contains(requested[k]),
{
    let pred = |s: Seq<char>| !existing.contains(s);
    assert(pred(requested[k]));
    requested.lemma_filter_contains(pred, k);
}

} // verus!
