//! Names as byte strings: addresses (by their strkey) and symbols (by their characters).
use vstd::prelude::*;

verus! {

/// Compares two byte strings.
pub fn bytes_eq(a: &Vec<u8>, b: &Vec<u8>) -> (r: bool)
    ensures
        r == (a@ == b@),
{
    if a.len() != b.len() {
        return false;
    }
    let n = a.len();
    let mut i: usize = 0;
    while i < n
        invariant
            n == a.len(),
            n == b.len(),
            i <= n,
            forall|j: int| 0 <= j < i ==> a@[j] == b@[j],
        decreases n - i,
    {
        if a[i] != b[i] {
            return false;
        }
        i = i + 1;
    }
    assert(a@ =~= b@);
    true
}

/// The byte strings of a list, each taken by its view.
pub open spec fn views(list: Seq<Vec<u8>>) -> Seq<Seq<u8>> {
    list.map_values(|v: Vec<u8>| v@)
}

/// `a` and `b` agree before position `i`, and there `a` comes first: it has ended while `b` goes
/// on, or its byte is the smaller one.
pub open spec fn lt_at(a: Seq<u8>, b: Seq<u8>, i: int) -> bool {
    &&& 0 <= i <= a.len()
    &&& i <= b.len()
    &&& a.take(i) == b.take(i)
    &&& ((i == a.len() && i < b.len()) || (i < a.len() && i < b.len() && a[i] < b[i]))
}

/// `a` comes before `b` in byte order: at the first position where they differ `a` has the
/// smaller byte, or `a` is a proper prefix of `b`. Symbols are ordered so.
pub open spec fn bytes_lt(a: Seq<u8>, b: Seq<u8>) -> bool {
    exists|i: int| #[trigger] lt_at(a, b, i)
}

proof fn lemma_take_eq(a: Seq<u8>, b: Seq<u8>, i: int)
    requires
        0 <= i <= a.len(),
        i <= b.len(),
    ensures
        (a.take(i) == b.take(i)) <==> (forall|x: int| 0 <= x < i ==> a[x] == b[x]),
{
    if a.take(i) == b.take(i) {
        assert forall|x: int| 0 <= x < i implies a[x] == b[x] by {
            assert(a.take(i)[x] == a[x]);
            assert(b.take(i)[x] == b[x]);
        }
    }
    if forall|x: int| 0 <= x < i ==> a[x] == b[x] {
        assert(a.take(i) =~= b.take(i));
    }
}

/// No byte string comes before itself.
pub proof fn lemma_bytes_lt_irreflexive(a: Seq<u8>)
    ensures
        !bytes_lt(a, a),
{
    if bytes_lt(a, a) {
        let i = choose|i: int| lt_at(a, a, i);
        assert(lt_at(a, a, i));
    }
}

/// Byte order is transitive.
pub proof fn lemma_bytes_lt_transitive(a: Seq<u8>, b: Seq<u8>, c: Seq<u8>)
    requires
        bytes_lt(a, b),
        bytes_lt(b, c),
    ensures
        bytes_lt(a, c),
{
    let i = choose|i: int| lt_at(a, b, i);
    let j = choose|j: int| lt_at(b, c, j);
    assert(lt_at(a, b, i));
    assert(lt_at(b, c, j));
    lemma_take_eq(a, b, i);
    lemma_take_eq(b, c, j);
    if i < j {
        assert(b[i] == c[i]);
        lemma_take_eq(a, c, i);
        assert(lt_at(a, c, i));
    } else if j < i {
        assert(a[j] == b[j]);
        lemma_take_eq(a, c, j);
        assert(lt_at(a, c, j));
    } else {
        lemma_take_eq(a, c, i);
        assert(lt_at(a, c, i));
    }
}

/// Of two byte strings, at most one comes before the other.
pub proof fn lemma_bytes_lt_asymmetric(a: Seq<u8>, b: Seq<u8>)
    requires
        bytes_lt(a, b),
    ensures
        !bytes_lt(b, a),
{
    if bytes_lt(b, a) {
        lemma_bytes_lt_transitive(a, b, a);
        lemma_bytes_lt_irreflexive(a);
    }
}

proof fn lemma_bytes_lt_total_from(a: Seq<u8>, b: Seq<u8>, k: int)
    requires
        0 <= k <= a.len(),
        k <= b.len(),
        forall|x: int| 0 <= x < k ==> a[x] == b[x],
        a != b,
    ensures
        bytes_lt(a, b) || bytes_lt(b, a),
    decreases a.len() - k,
{
    lemma_take_eq(a, b, k);
    lemma_take_eq(b, a, k);
    if k == a.len() || k == b.len() {
        if a.len() == b.len() {
            assert(a =~= b);
        } else if k == a.len() {
            assert(lt_at(a, b, k));
        } else {
            assert(lt_at(b, a, k));
        }
    } else if a[k] != b[k] {
        if a[k] < b[k] {
            assert(lt_at(a, b, k));
        } else {
            assert(lt_at(b, a, k));
        }
    } else {
        lemma_bytes_lt_total_from(a, b, k + 1);
    }
}

/// Of two different byte strings, one comes before the other.
pub proof fn lemma_bytes_lt_total(a: Seq<u8>, b: Seq<u8>)
    requires
        a != b,
    ensures
        bytes_lt(a, b) || bytes_lt(b, a),
{
    lemma_bytes_lt_total_from(a, b, 0);
}

/// Whether `a` comes before `b` in byte order.
pub fn bytes_less(a: &Vec<u8>, b: &Vec<u8>) -> (r: bool)
    ensures
        r == bytes_lt(a@, b@),
{
    let n = if a.len() < b.len() {
        a.len()
    } else {
        b.len()
    };
    let mut i: usize = 0;
    while i < n
        invariant
            n <= a@.len(),
            n <= b@.len(),
            n == a@.len() || n == b@.len(),
            i <= n,
            forall|x: int| 0 <= x < i ==> a@[x] == b@[x],
        decreases n - i,
    {
        if a[i] != b[i] {
            proof {
                lemma_take_eq(a@, b@, i as int);
                lemma_take_eq(b@, a@, i as int);
            }
            if a[i] < b[i] {
                assert(lt_at(a@, b@, i as int));
                return true;
            } else {
                assert(lt_at(b@, a@, i as int));
                proof {
                    lemma_bytes_lt_asymmetric(b@, a@);
                }
                return false;
            }
        }
        i = i + 1;
    }
    proof {
        lemma_take_eq(a@, b@, n as int);
        lemma_take_eq(b@, a@, n as int);
    }
    if a.len() < b.len() {
        assert(lt_at(a@, b@, n as int));
        true
    } else if a.len() == b.len() {
        assert(a@ =~= b@);
        proof {
            lemma_bytes_lt_irreflexive(a@);
        }
        false
    } else {
        assert(lt_at(b@, a@, n as int));
        proof {
            lemma_bytes_lt_asymmetric(b@, a@);
        }
        false
    }
}

/// An optional byte string, taken by its view.
pub open spec fn opt_bytes(o: Option<Vec<u8>>) -> Option<Seq<u8>> {
    match o {
        Some(a) => Some(a@),
        None => None,
    }
}

/// A copy of a list of byte strings.
pub fn copy_list(list: &Vec<Vec<u8>>) -> (r: Vec<Vec<u8>>)
    ensures
        views(r@) == views(list@),
{
    let mut r: Vec<Vec<u8>> = Vec::new();
    let n = list.len();
    let mut i: usize = 0;
    while i < n
        invariant
            n == list@.len(),
            i <= n,
            r@.len() == i,
            forall|j: int| 0 <= j < i ==> (#[trigger] r@[j])@ == list@[j]@,
        decreases n - i,
    {
        r.push(list[i].clone());
        i = i + 1;
    }
    assert(views(r@) =~= views(list@));
    r
}

/// Whether `list` holds a byte string equal to `x`.
pub fn contains_bytes(list: &Vec<Vec<u8>>, x: &Vec<u8>) -> (r: bool)
    ensures
        r == views(list@).contains(x@),
{
    let n = list.len();
    let mut i: usize = 0;
    while i < n
        invariant
            n == list@.len(),
            i <= n,
            forall|j: int| 0 <= j < i ==> views(list@)[j] != x@,
        decreases n - i,
    {
        if bytes_eq(&list[i], x) {
            assert(views(list@)[i as int] == x@);
            return true;
        }
        assert(views(list@)[i as int] != x@);
        i = i + 1;
    }
    false
}

/// The set of a one-longer prefix holds one more element.
pub proof fn lemma_take_to_set_step<A>(s: Seq<A>, i: int)
    requires
        0 <= i < s.len(),
    ensures
        s.take(i + 1).to_set() == s.take(i).to_set().insert(s[i]),
{
    let a = s.take(i + 1);
    let b = s.take(i);
    assert(a[i] == s[i]);
    assert forall|k: A| #[trigger] a.contains(k) implies b.to_set().insert(s[i]).contains(k) by {
        let j = choose|j: int| 0 <= j < a.len() && #[trigger] a[j] == k;
        if j < i {
            assert(b[j] == k);
        }
    }
    assert forall|k: A| #[trigger] b.contains(k) implies a.contains(k) by {
        let j = choose|j: int| 0 <= j < b.len() && #[trigger] b[j] == k;
        assert(a[j] == k);
    }
    assert(a.to_set() =~= b.to_set().insert(s[i]));
}

/// Appending a name that a list does not hold keeps the list free of repeats and in step with
/// the set of names it stands for.
pub proof fn lemma_append_new_name(names: Seq<Seq<u8>>, known: Set<Seq<u8>>, name: Seq<u8>)
    requires
        names.no_duplicates(),
        forall|k: Seq<u8>| known.contains(k) <==> names.contains(k),
        !known.contains(name),
    ensures
        names.push(name).no_duplicates(),
        forall|k: Seq<u8>| known.insert(name).contains(k) <==> names.push(name).contains(k),
{
    let s = names.push(name);
    assert(!names.contains(name));
    assert forall|a: int, b: int| 0 <= a < s.len() && 0 <= b < s.len() && a != b implies s[a] != s[b] by {
        if a == names.len() {
            assert(names[b] != name);
        } else if b == names.len() {
            assert(names[a] != name);
        }
    }
    assert forall|k: Seq<u8>| known.insert(name).contains(k) <==> s.contains(k) by {
        if k != name && names.contains(k) {
            let j = names.index_of(k);
            assert(s[j] == k);
        }
        if s.contains(k) && k != name {
            let j = s.index_of(k);
            assert(j < names.len());
            assert(names[j] == k);
        }
        if k == name {
            assert(s[names.len() as int] == k);
        }
    }
}

/// A key that can be compared with another key of its own type by its view.
pub trait KeyEq: View + Sized {
    fn key_eq(&self, other: &Self) -> (r: bool)
        ensures
            r == (self@ == other@),
    ;
}

impl KeyEq for Vec<u8> {
    fn key_eq(&self, other: &Self) -> (r: bool) {
        bytes_eq(self, other)
    }
}

impl KeyEq for (Vec<u8>, Vec<u8>) {
    fn key_eq(&self, other: &Self) -> (r: bool) {
        bytes_eq(&self.0, &other.0) && bytes_eq(&self.1, &other.1)
    }
}

} // verus!
