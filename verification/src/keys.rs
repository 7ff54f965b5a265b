use vstd::prelude::*;

verus! {

/// The address of an account: the 32 bytes of an ed25519 public key or of a
/// program-derived address.
#[derive(Clone, Copy, Debug, Default, Hash)]
pub struct Pubkey(pub [u8; 32]);

impl View for Pubkey {
    type V = Seq<u8>;

    open spec fn view(&self) -> Seq<u8> {
        self.0@
    }
}

impl Pubkey {
    /// Whether two keys hold the same bytes.
    pub fn same(&self, other: &Pubkey) -> (r: bool)
        ensures
            r == (*self == *other),
    {
        let mut i: usize = 0;
        while i < 32
            invariant
                0 <= i <= 32,
                forall|j: int| 0 <= j < i ==> self.0[j] == other.0[j],
            decreases 32 - i,
        {
            if self.0[i] != other.0[i] {
                return false;
            }
            i = i + 1;
        }
        assert(self.0 =~= other.0);
        true
    }
}

impl PartialEq for Pubkey {
    fn eq(&self, other: &Pubkey) -> (r: bool) {
        self.same(other)
    }
}

impl Eq for Pubkey {
}

impl vstd::std_specs::cmp::PartialEqSpecImpl for Pubkey {
    open spec fn obeys_eq_spec() -> bool {
        true
    }

    open spec fn eq_spec(&self, other: &Pubkey) -> bool {
        *self == *other
    }
}

/// The index of the first occurrence of `key` in `keys`.
pub open spec fn is_first(keys: Seq<Pubkey>, key: Pubkey, i: int) -> bool {
    &&& 0 <= i < keys.len()
    &&& keys[i] == key
    &&& forall|j: int| 0 <= j < i ==> keys[j] != key
}

/// Where `key` first occurs in `keys`; `keys.len()` when it does not occur.
pub open spec fn first_index(keys: Seq<Pubkey>, key: Pubkey) -> int {
    if exists|i: int| is_first(keys, key, i) {
        choose|i: int| is_first(keys, key, i)
    } else {
        keys.len() as int
    }
}

/// `first_index` is the first occurrence, and is `keys.len()` exactly when
/// the key does not occur.
pub proof fn lemma_first_index(keys: Seq<Pubkey>, key: Pubkey)
    ensures
        0 <= first_index(keys, key) <= keys.len(),
        first_index(keys, key) < keys.len() <==> keys.contains(key),
        first_index(keys, key) < keys.len() ==> is_first(keys, key, first_index(keys, key)),
        first_index(keys, key) == keys.len() ==> forall|j: int|
            0 <= j < keys.len() ==> keys[j] != key,
    decreases keys.len(),
{
    if keys.len() == 0 {
    } else {
        let init = keys.drop_last();
        lemma_first_index(init, key);
        if init.contains(key) {
            let i = first_index(init, key);
            assert(keys[i] == init[i]);
            assert forall|j: int| 0 <= j < i implies keys[j] != key by {
                assert(init[j] == keys[j]);
            }
            assert(is_first(keys, key, i));
            lemma_first_unique(keys, key, i);
        } else if keys.last() == key {
            let i = keys.len() - 1;
            assert forall|j: int| 0 <= j < i implies keys[j] != key by {
                assert(init[j] == keys[j]);
            }
            assert(is_first(keys, key, i));
            lemma_first_unique(keys, key, i);
        } else {
            assert forall|j: int| 0 <= j < keys.len() implies keys[j] != key by {
                if j < keys.len() - 1 {
                    assert(init[j] == keys[j]);
                }
            }
            assert(!(exists|i: int| is_first(keys, key, i)));
        }
    }
}

/// The first occurrence is unique.
pub proof fn lemma_first_unique(keys: Seq<Pubkey>, key: Pubkey, i: int)
    requires
        is_first(keys, key, i),
    ensures
        first_index(keys, key) == i,
{
    let c = choose|c: int| is_first(keys, key, c);
    assert(is_first(keys, key, c));
}

/// No key occurs twice, each is new to the ones before it.
pub open spec fn dedup(s: Seq<Pubkey>) -> Seq<Pubkey>
    decreases s.len(),
{
    if s.len() == 0 {
        Seq::empty()
    } else {
        let d = dedup(s.drop_last());
        if d.contains(s.last()) {
            d
        } else {
            d.push(s.last())
        }
    }
}

/// `dedup(s)` holds each key of `s` exactly once.
pub proof fn lemma_dedup(s: Seq<Pubkey>)
    ensures
        dedup(s).no_duplicates(),
        forall|k: Pubkey| dedup(s).contains(k) <==> s.contains(k),
        dedup(s).to_set() == s.to_set(),
    decreases s.len(),
{
    if s.len() > 0 {
        let init = s.drop_last();
        lemma_dedup(init);
        let d = dedup(init);
        assert forall|k: Pubkey| s.contains(k) <==> (init.contains(k) || k == s.last()) by {
            if s.contains(k) {
                let i = choose|i: int| 0 <= i < s.len() && s[i] == k;
                if i < s.len() - 1 {
                    assert(init[i] == k);
                }
            }
            if init.contains(k) {
                let i = choose|i: int| 0 <= i < init.len() && init[i] == k;
                assert(s[i] == k);
            }
            if k == s.last() {
                assert(s[s.len() - 1] == k);
            }
        }
        if !d.contains(s.last()) {
            let e = d.push(s.last());
            assert forall|k: Pubkey| e.contains(k) <==> (d.contains(k) || k == s.last()) by {
                if e.contains(k) {
                    let i = choose|i: int| 0 <= i < e.len() && e[i] == k;
                    if i < d.len() {
                        assert(d[i] == k);
                    }
                }
                if d.contains(k) {
                    let i = choose|i: int| 0 <= i < d.len() && d[i] == k;
                    assert(e[i] == k);
                }
                if k == s.last() {
                    assert(e[e.len() - 1] == k);
                }
            }
            assert forall|i: int, j: int|
                0 <= i < e.len() && 0 <= j < e.len() && i != j implies e[i] != e[j] by {
                if i < d.len() && j < d.len() {
                } else if i < d.len() {
                    assert(d.contains(e[i]));
                } else {
                    assert(d.contains(e[j]));
                }
            }
        }
    }
    assert(dedup(s).to_set() =~= s.to_set());
}

/// `dedup(s)` is no longer than `s`.
pub proof fn lemma_dedup_len(s: Seq<Pubkey>)
    ensures
        dedup(s).len() <= s.len(),
    decreases s.len(),
{
    if s.len() > 0 {
        lemma_dedup_len(s.drop_last());
    }
}

/// Whether `key` occurs in `keys`.
pub fn contains_key(keys: &Vec<Pubkey>, key: &Pubkey) -> (r: bool)
    ensures
        r == keys@.contains(*key),
{
    let mut i: usize = 0;
    while i < keys.len()
        invariant
            0 <= i <= keys.len(),
            forall|j: int| 0 <= j < i ==> keys@[j] != *key,
        decreases keys.len() - i,
    {
        if keys[i].same(key) {
            assert(keys@[i as int] == *key);
            return true;
        }
        i = i + 1;
    }
    false
}

/// The keys of `keys`, each once, in the order in which each first occurs.
pub fn dedup_keys(keys: &Vec<Pubkey>) -> (r: Vec<Pubkey>)
    ensures
        r@ == dedup(keys@),
{
    let mut out: Vec<Pubkey> = Vec::new();
    let mut i: usize = 0;
    while i < keys.len()
        invariant
            0 <= i <= keys.len(),
            out@ == dedup(keys@.take(i as int)),
        decreases keys.len() - i,
    {
        let k = keys[i];
        assert(keys@.take(i + 1).drop_last() =~= keys@.take(i as int));
        assert(keys@.take(i + 1).last() == k);
        if !contains_key(&out, &k) {
            out.push(k);
        }
        i = i + 1;
    }
    assert(keys@.take(keys.len() as int) =~= keys@);
    out
}

} // verus!
