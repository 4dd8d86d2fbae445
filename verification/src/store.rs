//! The key-value backend's command semantics.
//!
//! One backend template is fully specified: a keyed store of numbers, texts,
//! lists and collections, with the exact meaning of every command the
//! provider exposes — increment by delta, existence, delete, read with an
//! explicit existence flag, list append / remove-one / inclusive clamped
//! range, write, and collection add / remove / members / intersection /
//! union. A command on a key holding a value of the wrong kind fails, and
//! the command executor converts that failure into the operation's default
//! result. A collection or list whose last element is removed leaves no
//! entry behind.

use vstd::prelude::*;

verus! {

/// A stored value: a number, a text, a list, or a collection of distinct
/// members.
pub enum Value {
    Num(i32),
    Text(String),
    List(Vec<String>),
    Items(Vec<String>),
}

/// The view of a stored value. A collection is viewed as the set of its
/// members' views.
pub enum ValueView {
    Num(i32),
    Text(Seq<char>),
    List(Seq<Seq<char>>),
    Items(Set<Seq<char>>),
}

/// The views of a sequence of strings.
pub open spec fn seq_views(l: Seq<String>) -> Seq<Seq<char>> {
    l.map_values(|s: String| s@)
}

/// The set of views of a sequence of strings.
pub open spec fn set_of_strings(l: Seq<String>) -> Set<Seq<char>> {
    Set::new(|x: Seq<char>| exists|i: int| 0 <= i < l.len() && l[i]@ == x)
}

/// No two strings of the sequence read the same.
pub open spec fn nodup(l: Seq<String>) -> bool {
    forall|i: int, j: int| 0 <= i < j < l.len() ==> l[i]@ != l[j]@
}

impl Value {
    /// The view of this value.
    pub open spec fn view(self) -> ValueView {
        match self {
            Value::Num(n) => ValueView::Num(n),
            Value::Text(s) => ValueView::Text(s@),
            Value::List(l) => ValueView::List(seq_views(l@)),
            Value::Items(l) => ValueView::Items(set_of_strings(l@)),
        }
    }

    /// A collection carries no duplicate member.
    pub open spec fn wf(self) -> bool {
        match self {
            Value::Items(l) => nodup(l@),
            _ => true,
        }
    }
}

/// Why a command failed against the store.
pub enum StoreError {
    /// The key holds a value of a kind the command does not apply to.
    WrongType,
    /// The result would not fit its numeric type.
    Overflow,
}

/// The keyed store: at most one value per key.
pub struct KvStore {
    pub entries: Vec<(String, Value)>,
}

impl KvStore {
    /// The key stored at an index.
    pub open spec fn key_at(self, i: int) -> Seq<char> {
        self.entries@[i].0@
    }

    /// Each key holds at most one entry, and each value is well formed.
    pub open spec fn wf(self) -> bool {
        &&& forall|i: int, j: int|
            0 <= i < j < self.entries@.len() ==> #[trigger] self.key_at(i) != #[trigger] self.key_at(j)
        &&& forall|i: int| 0 <= i < self.entries@.len() ==> (#[trigger] self.entries@[i].1).wf()
    }

    /// Whether the store holds an entry for a key.
    pub open spec fn has_key(self, k: Seq<char>) -> bool {
        exists|i: int| 0 <= i < self.entries@.len() && #[trigger] self.key_at(i) == k
    }

    /// The value stored under a key, if any.
    pub open spec fn val_of(self, k: Seq<char>) -> Option<ValueView> {
        if self.has_key(k) {
            let i = choose|i: int| 0 <= i < self.entries@.len() && #[trigger] self.key_at(i) == k;
            Some(self.entries@[i].1@)
        } else {
            None
        }
    }

    /// An empty store.
    pub fn new() -> (r: KvStore)
        ensures
            r.wf(),
            r.entries@.len() == 0,
            forall|k: Seq<char>| r.val_of(k) is None,
    {
        KvStore { entries: Vec::new() }
    }

    /// The index of the entry for a key, if any.
    fn find_key(&self, key: &str) -> (r: Option<usize>)
        requires
            self.wf(),
        ensures
            (match r {
                Some(i) => i < self.entries@.len() && self.key_at(i as int) == key@ && self.val_of(
                    key@,
                ) == Some(self.entries@[i as int].1@),
                None => !self.has_key(key@),
            }),
    {
        let n = self.entries.len();
        let mut i: usize = 0;
        while i < n
            invariant
                n == self.entries@.len(),
                0 <= i <= n,
                self.wf(),
                forall|j: int| 0 <= j < i ==> #[trigger] self.key_at(j) != key@,
            decreases n - i,
        {
            let eq = self.entries[i].0 == String::from_str(key);
            if eq {
                proof {
                    assert(self.key_at(i as int) == key@);
                    let k = choose|k: int|
                        0 <= k < self.entries@.len() && #[trigger] self.key_at(k) == key@;
                    assert(k == i as int);
                }
                return Some(i);
            }
            i += 1;
        }
        None
    }

    /// Remove and hand out the entry for a key, if any.
    fn take(&mut self, key: &str) -> (r: Option<Value>)
        requires
            old(self).wf(),
        ensures
            final(self).wf(),
            (match r {
                Some(v) => old(self).val_of(key@) == Some(v@) && v.wf(),
                None => old(self).val_of(key@) is None,
            }),
            final(self).val_of(key@) is None,
            forall|k: Seq<char>| k != key@ ==> final(self).val_of(k) == old(self).val_of(k),
    {
        match self.find_key(key) {
            Some(i) => {
                let ghost oldt = *self;
                let entry = self.entries.remove(i);
                proof {
                    lemma_kv_remove_effect(oldt, *self, i as int);
                }
                Some(entry.1)
            },
            None => None,
        }
    }

    /// Insert an entry for a key not yet present.
    fn put(&mut self, key: &str, v: Value)
        requires
            old(self).wf(),
            !old(self).has_key(key@),
            v.wf(),
        ensures
            final(self).wf(),
            final(self).val_of(key@) == Some(v@),
            forall|k: Seq<char>| k != key@ ==> final(self).val_of(k) == old(self).val_of(k),
    {
        let ghost oldt = *self;
        let ghost vv = v@;
        self.entries.push((String::from_str(key), v));
        proof {
            assert(self.entries@.subrange(0, oldt.entries@.len() as int) =~= oldt.entries@);
            lemma_kv_push_effect(oldt, *self, key@, vv);
        }
    }

    /// Whether the store contains the key.
    pub fn contains(&self, key: &str) -> (r: bool)
        requires
            self.wf(),
        ensures
            r == self.has_key(key@),
    {
        match self.find_key(key) {
            Some(_) => true,
            None => false,
        }
    }

    /// Delete a key of any kind, reporting how many entries were removed:
    /// one when the key existed, none otherwise.
    pub fn del(&mut self, key: &str) -> (r: i32)
        requires
            old(self).wf(),
        ensures
            final(self).wf(),
            r == (if old(self).has_key(key@) {
                1int
            } else {
                0int
            }),
            final(self).val_of(key@) is None,
            forall|k: Seq<char>| k != key@ ==> final(self).val_of(k) == old(self).val_of(k),
    {
        match self.take(key) {
            Some(_) => 1,
            None => 0,
        }
    }

    /// Increment the number under a key by a delta, returning the new value.
    /// A missing key counts from zero. A key of another kind, or a result
    /// out of range, fails and leaves the store unchanged.
    pub fn increment(&mut self, key: &str, value: i32) -> (r: Result<i32, StoreError>)
        requires
            old(self).wf(),
        ensures
            final(self).wf(),
            forall|k: Seq<char>| k != key@ ==> final(self).val_of(k) == old(self).val_of(k),
            (match old(self).val_of(key@) {
                None => r == Ok::<i32, StoreError>(value) && final(self).val_of(key@) == Some(
                    ValueView::Num(value),
                ),
                Some(ValueView::Num(n)) => if i32::MIN <= n + value <= i32::MAX {
                    r == Ok::<i32, StoreError>((n + value) as i32) && final(self).val_of(key@)
                        == Some(ValueView::Num((n + value) as i32))
                } else {
                    r == Err::<i32, StoreError>(StoreError::Overflow) && final(self).val_of(key@)
                        == old(self).val_of(key@)
                },
                Some(_) => r == Err::<i32, StoreError>(StoreError::WrongType)
                    && final(self).val_of(key@) == old(self).val_of(key@),
            }),
    {
        match self.take(key) {
            None => {
                self.put(key, Value::Num(value));
                Ok(value)
            },
            Some(Value::Num(n)) => {
                let sum = n as i64 + value as i64;
                if i32::MIN as i64 <= sum && sum <= i32::MAX as i64 {
                    self.put(key, Value::Num(sum as i32));
                    Ok(sum as i32)
                } else {
                    self.put(key, Value::Num(n));
                    Err(StoreError::Overflow)
                }
            },
            Some(v) => {
                self.put(key, v);
                Err(StoreError::WrongType)
            },
        }
    }

    /// Read the text under a key: the value when present, nothing when
    /// absent, a failure when the key holds another kind.
    pub fn get(&self, key: &str) -> (r: Result<Option<String>, StoreError>)
        requires
            self.wf(),
        ensures
            (match self.val_of(key@) {
                None => r == Ok::<Option<String>, StoreError>(None),
                Some(ValueView::Text(t)) => (match r {
                    Ok(Some(v)) => v@ == t,
                    _ => false,
                }),
                Some(_) => r == Err::<Option<String>, StoreError>(StoreError::WrongType),
            }),
    {
        match self.find_key(key) {
            None => Ok(None),
            Some(i) => match &self.entries[i].1 {
                Value::Text(t) => Ok(Some(t.clone())),
                _ => Err(StoreError::WrongType),
            },
        }
    }

    /// Write a text under a key, overwriting a value of any kind. The
    /// optional expiration (in seconds, zero meaning none) is honoured by
    /// the backend's clock and is not part of the stored view.
    pub fn set(&mut self, key: &str, value: &str, _expires: u32)
        requires
            old(self).wf(),
        ensures
            final(self).wf(),
            final(self).val_of(key@) == Some(ValueView::Text(value@)),
            forall|k: Seq<char>| k != key@ ==> final(self).val_of(k) == old(self).val_of(k),
    {
        let _ = self.take(key);
        self.put(key, Value::Text(String::from_str(value)));
    }
}

/// The index of the first occurrence of `x` in `l`; meaningful when
/// `l.contains(x)`.
pub open spec fn spec_first_index(l: Seq<Seq<char>>, x: Seq<char>) -> int
    decreases l.len(),
{
    if l.len() == 0 {
        0
    } else if l[0] == x {
        0
    } else {
        1 + spec_first_index(l.drop_first(), x)
    }
}

proof fn lemma_first_index_char(l: Seq<Seq<char>>, x: Seq<char>, i: int)
    requires
        0 <= i < l.len(),
        l[i] == x,
        forall|j: int| 0 <= j < i ==> l[j] != x,
    ensures
        spec_first_index(l, x) == i,
    decreases i,
{
    if i > 0 {
        assert(l[0] != x);
        let l1 = l.drop_first();
        assert(l1[i - 1] == l[i]);
        assert forall|j: int| 0 <= j < i - 1 implies l1[j] != x by {
            assert(l1[j] == l[j + 1]);
        }
        lemma_first_index_char(l1, x, i - 1);
    }
}

impl KvStore {
    /// Append a value to the end of the list under a key, returning the new
    /// list size. A missing key starts a fresh list. A key of another kind,
    /// or a size beyond its type, fails and leaves the store unchanged.
    pub fn list_add(&mut self, key: &str, value: &str) -> (r: Result<u32, StoreError>)
        requires
            old(self).wf(),
        ensures
            final(self).wf(),
            forall|k: Seq<char>| k != key@ ==> final(self).val_of(k) == old(self).val_of(k),
            (match old(self).val_of(key@) {
                None => r == Ok::<u32, StoreError>(1u32) && final(self).val_of(key@) == Some(
                    ValueView::List(seq![value@]),
                ),
                Some(ValueView::List(l)) => if l.len() + 1 <= u32::MAX {
                    r == Ok::<u32, StoreError>((l.len() + 1) as u32) && final(self).val_of(key@)
                        == Some(ValueView::List(l.push(value@)))
                } else {
                    r == Err::<u32, StoreError>(StoreError::Overflow) && final(self).val_of(key@)
                        == old(self).val_of(key@)
                },
                Some(_) => r == Err::<u32, StoreError>(StoreError::WrongType)
                    && final(self).val_of(key@) == old(self).val_of(key@),
            }),
    {
        match self.take(key) {
            None => {
                let mut l: Vec<String> = Vec::new();
                l.push(String::from_str(value));
                proof {
                    assert(seq_views(l@) =~= seq![value@]);
                }
                self.put(key, Value::List(l));
                Ok(1)
            },
            Some(Value::List(mut l)) => {
                if l.len() < 0xffff_ffffusize {
                    let ghost oldl = l@;
                    l.push(String::from_str(value));
                    proof {
                        assert(seq_views(l@) =~= seq_views(oldl).push(value@));
                    }
                    let n = l.len();
                    self.put(key, Value::List(l));
                    Ok(n as u32)
                } else {
                    self.put(key, Value::List(l));
                    Err(StoreError::Overflow)
                }
            },
            Some(v) => {
                self.put(key, v);
                Err(StoreError::WrongType)
            },
        }
    }

    /// Remove the first occurrence of a value from the list under a key,
    /// reporting how many elements were removed. A list emptied by the
    /// removal leaves no entry behind. A missing key removes nothing; a key
    /// of another kind fails and leaves the store unchanged.
    pub fn list_del(&mut self, key: &str, value: &str) -> (r: Result<i32, StoreError>)
        requires
            old(self).wf(),
        ensures
            final(self).wf(),
            forall|k: Seq<char>| k != key@ ==> final(self).val_of(k) == old(self).val_of(k),
            (match old(self).val_of(key@) {
                None => r == Ok::<i32, StoreError>(0) && final(self).val_of(key@) is None,
                Some(ValueView::List(l)) => if l.contains(value@) {
                    r == Ok::<i32, StoreError>(1) && final(self).val_of(key@) == (if l.len() == 1 {
                        None
                    } else {
                        Some(ValueView::List(l.remove(spec_first_index(l, value@))))
                    })
                } else {
                    r == Ok::<i32, StoreError>(0) && final(self).val_of(key@) == old(self).val_of(
                        key@,
                    )
                },
                Some(_) => r == Err::<i32, StoreError>(StoreError::WrongType)
                    && final(self).val_of(key@) == old(self).val_of(key@),
            }),
    {
        match self.take(key) {
            None => Ok(0),
            Some(Value::List(mut l)) => {
                let ghost lv = seq_views(l@);
                let n = l.len();
                let mut i: usize = 0;
                while i < n
                    invariant
                        n == l@.len(),
                        0 <= i <= n,
                        lv == seq_views(l@),
                        forall|j: int| 0 <= j < i ==> lv[j] != value@,
                        self.wf(),
                        !self.has_key(key@),
                        old(self).val_of(key@) == Some(ValueView::List(lv)),
                        forall|k: Seq<char>|
                            k != key@ ==> self.val_of(k) == old(self).val_of(k),
                    decreases n - i,
                {
                    let eq = l[i] == String::from_str(value);
                    if eq {
                        proof {
                            assert(lv[i as int] == value@);
                            lemma_first_index_char(lv, value@, i as int);
                        }
                        l.remove(i);
                        proof {
                            assert(seq_views(l@) =~= lv.remove(i as int));
                        }
                        if l.len() > 0 {
                            self.put(key, Value::List(l));
                        }
                        return Ok(1);
                    }
                    i += 1;
                }
                proof {
                    assert(!lv.contains(value@));
                }
                self.put(key, Value::List(l));
                Ok(0)
            },
            Some(v) => {
                self.put(key, v);
                Err(StoreError::WrongType)
            },
        }
    }

    /// The inclusive range of the list under a key, by 0-based start and
    /// stop: a stop beyond the end of the list is clamped to the true end,
    /// and a start past the end or beyond the stop yields an empty range. A
    /// missing key yields an empty range; a key of another kind fails.
    pub fn list_range(&self, key: &str, start: u32, stop: u32) -> (r: Result<
        Vec<String>,
        StoreError,
    >)
        requires
            self.wf(),
        ensures
            (match self.val_of(key@) {
                None => (match r {
                    Ok(v) => v@.len() == 0,
                    _ => false,
                }),
                Some(ValueView::List(l)) => (match r {
                    Ok(v) => seq_views(v@) == spec_lrange(l, start as int, stop as int),
                    _ => false,
                }),
                Some(_) => r == Err::<Vec<String>, StoreError>(StoreError::WrongType),
            }),
    {
        match self.find_key(key) {
            None => Ok(Vec::new()),
            Some(e) => match &self.entries[e].1 {
                Value::List(l) => {
                    let ghost lv = seq_views(l@);
                    let mut out: Vec<String> = Vec::new();
                    let len = l.len();
                    if start as usize >= len || stop < start {
                        proof {
                            assert(seq_views(out@) =~= spec_lrange(lv, start as int, stop as int));
                        }
                        return Ok(out);
                    }
                    let first = start as usize;
                    let end = if stop as usize >= len - 1 {
                        len
                    } else {
                        stop as usize + 1
                    };
                    let mut i = first;
                    while i < end
                        invariant
                            first <= i <= end <= l@.len(),
                            lv == seq_views(l@),
                            out@.len() == i - first,
                            forall|j: int|
                                0 <= j < out@.len() ==> #[trigger] out@[j]@ == lv[first + j],
                        decreases end - i,
                    {
                        out.push(l[i].clone());
                        i += 1;
                    }
                    proof {
                        assert(seq_views(out@) =~= spec_lrange(lv, start as int, stop as int));
                    }
                    Ok(out)
                },
                _ => Err(StoreError::WrongType),
            },
        }
    }
}

/// Whether some string of the sequence reads as `x`.
fn contains_string(v: &Vec<String>, x: &str) -> (r: bool)
    ensures
        r == set_of_strings(v@).contains(x@),
{
    let n = v.len();
    let mut i: usize = 0;
    while i < n
        invariant
            n == v@.len(),
            0 <= i <= n,
            forall|j: int| 0 <= j < i ==> v@[j]@ != x@,
        decreases n - i,
    {
        let eq = v[i] == String::from_str(x);
        if eq {
            proof {
                assert(v@[i as int]@ == x@);
            }
            return true;
        }
        i += 1;
    }
    false
}

/// A copy of a vector of strings.
fn clone_string_vec(v: &Vec<String>) -> (r: Vec<String>)
    ensures
        r@ == v@,
{
    let n = v.len();
    let mut out: Vec<String> = Vec::new();
    let mut i: usize = 0;
    while i < n
        invariant
            n == v@.len(),
            0 <= i <= n,
            out@.len() == i,
            forall|j: int| 0 <= j < i ==> out@[j] == v@[j],
        decreases n - i,
    {
        out.push(v[i].clone());
        i += 1;
    }
    proof {
        assert(out@ =~= v@);
    }
    out
}

impl KvStore {
    /// The members stored under a key, when it holds a collection; an absent
    /// key holds no members.
    pub open spec fn set_at(self, k: Seq<char>) -> Set<Seq<char>> {
        match self.val_of(k) {
            Some(ValueView::Items(s)) => s,
            _ => Set::empty(),
        }
    }

    /// Whether a key can answer collection queries: it is absent or holds a
    /// collection.
    pub open spec fn key_is_collection(self, k: Seq<char>) -> bool {
        match self.val_of(k) {
            None => true,
            Some(ValueView::Items(_)) => true,
            Some(_) => false,
        }
    }

    /// Whether every named key can answer collection queries.
    pub open spec fn all_collections(self, keys: Seq<String>) -> bool {
        forall|i: int| 0 <= i < keys.len() ==> self.key_is_collection(#[trigger] keys[i]@)
    }

    /// The intersection of the collections under the first `n` keys.
    pub open spec fn spec_inter_upto(self, keys: Seq<String>, n: int) -> Set<Seq<char>>
        decreases n,
    {
        if n <= 1 {
            self.set_at(keys[0]@)
        } else {
            self.spec_inter_upto(keys, n - 1).intersect(self.set_at(keys[n - 1]@))
        }
    }

    /// The intersection of the collections under the named keys; empty when
    /// no key is named.
    pub open spec fn spec_inter(self, keys: Seq<String>) -> Set<Seq<char>> {
        if keys.len() == 0 {
            Set::empty()
        } else {
            self.spec_inter_upto(keys, keys.len() as int)
        }
    }

    /// The union of the collections under the first `n` keys.
    pub open spec fn spec_union_upto(self, keys: Seq<String>, n: int) -> Set<Seq<char>>
        decreases n,
    {
        if n <= 0 {
            Set::empty()
        } else {
            self.spec_union_upto(keys, n - 1).union(self.set_at(keys[n - 1]@))
        }
    }

    /// Add a member to the collection under a key, returning how many
    /// members were added: one when it was new, none when already present.
    /// A missing key starts a fresh collection; a key of another kind fails
    /// and leaves the store unchanged.
    pub fn set_add(&mut self, key: &str, value: &str) -> (r: Result<u32, StoreError>)
        requires
            old(self).wf(),
        ensures
            final(self).wf(),
            forall|k: Seq<char>| k != key@ ==> final(self).val_of(k) == old(self).val_of(k),
            (match old(self).val_of(key@) {
                None => r == Ok::<u32, StoreError>(1u32) && final(self).val_of(key@) == Some(
                    ValueView::Items(Set::<Seq<char>>::empty().insert(value@)),
                ),
                Some(ValueView::Items(s)) => if s.contains(value@) {
                    r == Ok::<u32, StoreError>(0u32) && final(self).val_of(key@) == old(
                        self,
                    ).val_of(key@)
                } else {
                    r == Ok::<u32, StoreError>(1u32) && final(self).val_of(key@) == Some(
                        ValueView::Items(s.insert(value@)),
                    )
                },
                Some(_) => r == Err::<u32, StoreError>(StoreError::WrongType)
                    && final(self).val_of(key@) == old(self).val_of(key@),
            }),
    {
        match self.take(key) {
            None => {
                let mut l: Vec<String> = Vec::new();
                l.push(String::from_str(value));
                proof {
                    assert(l@[0]@ == value@);
                    assert(set_of_strings(l@) =~= Set::<Seq<char>>::empty().insert(value@));
                }
                self.put(key, Value::Items(l));
                Ok(1)
            },
            Some(Value::Items(mut l)) => {
                let present = contains_string(&l, value);
                if present {
                    self.put(key, Value::Items(l));
                    Ok(0)
                } else {
                    let ghost olds = l@;
                    l.push(String::from_str(value));
                    proof {
                        assert(l@[l@.len() - 1]@ == value@);
                        assert forall|a: int, b: int| 0 <= a < b < l@.len() implies l@[a]@
                            != l@[b]@ by {
                            if b == l@.len() - 1 {
                                assert(l@[a] == olds[a]);
                                assert(!set_of_strings(olds).contains(l@[b]@));
                            } else {
                                assert(l@[a] == olds[a]);
                                assert(l@[b] == olds[b]);
                            }
                        }
                        assert forall|x: Seq<char>| set_of_strings(l@).contains(x) implies
                            set_of_strings(olds).insert(value@).contains(x) by {
                            let i = choose|i: int| 0 <= i < l@.len() && l@[i]@ == x;
                            if i < olds.len() {
                                assert(olds[i]@ == x);
                            }
                        }
                        assert forall|x: Seq<char>| set_of_strings(olds).insert(value@).contains(x)
                            implies set_of_strings(l@).contains(x) by {
                            if x == value@ {
                                assert(l@[l@.len() - 1]@ == x);
                            } else {
                                let i = choose|i: int| 0 <= i < olds.len() && olds[i]@ == x;
                                assert(l@[i]@ == x);
                            }
                        }
                        assert(set_of_strings(l@) =~= set_of_strings(olds).insert(value@));
                    }
                    self.put(key, Value::Items(l));
                    Ok(1)
                }
            },
            Some(v) => {
                self.put(key, v);
                Err(StoreError::WrongType)
            },
        }
    }

    /// Remove a member from the collection under a key, returning how many
    /// members were removed. A collection emptied by the removal leaves no
    /// entry behind. A missing key removes nothing; a key of another kind
    /// fails and leaves the store unchanged.
    pub fn set_del(&mut self, key: &str, value: &str) -> (r: Result<u32, StoreError>)
        requires
            old(self).wf(),
        ensures
            final(self).wf(),
            forall|k: Seq<char>| k != key@ ==> final(self).val_of(k) == old(self).val_of(k),
            (match old(self).val_of(key@) {
                None => r == Ok::<u32, StoreError>(0u32) && final(self).val_of(key@) is None,
                Some(ValueView::Items(s)) => if s.contains(value@) {
                    r == Ok::<u32, StoreError>(1u32) && final(self).val_of(key@) == (if s.remove(
                        value@,
                    ) == Set::<Seq<char>>::empty() {
                        None
                    } else {
                        Some(ValueView::Items(s.remove(value@)))
                    })
                } else {
                    r == Ok::<u32, StoreError>(0u32) && final(self).val_of(key@) == old(
                        self,
                    ).val_of(key@)
                },
                Some(_) => r == Err::<u32, StoreError>(StoreError::WrongType)
                    && final(self).val_of(key@) == old(self).val_of(key@),
            }),
    {
        match self.take(key) {
            None => Ok(0),
            Some(Value::Items(mut l)) => {
                let ghost olds = l@;
                let n = l.len();
                let mut i: usize = 0;
                while i < n
                    invariant
                        n == l@.len(),
                        0 <= i <= n,
                        l@ == olds,
                        nodup(olds),
                        forall|j: int| 0 <= j < i ==> olds[j]@ != value@,
                        self.wf(),
                        !self.has_key(key@),
                        old(self).val_of(key@) == Some(ValueView::Items(set_of_strings(olds))),
                        forall|k: Seq<char>|
                            k != key@ ==> self.val_of(k) == old(self).val_of(k),
                    decreases n - i,
                {
                    let eq = l[i] == String::from_str(value);
                    if eq {
                        proof {
                            assert(olds[i as int]@ == value@);
                            assert(set_of_strings(olds).contains(value@));
                        }
                        l.remove(i);
                        proof {
                            lemma_nodup_remove_member(olds, i as int, value@);
                            assert(set_of_strings(l@) =~= set_of_strings(olds.remove(i as int)));
                        }
                        if l.len() > 0 {
                            proof {
                                assert(set_of_strings(l@).contains(l@[0]@));
                                assert(set_of_strings(olds).remove(value@)
                                    != Set::<Seq<char>>::empty()) by {
                                    assert(!Set::<Seq<char>>::empty().contains(l@[0]@));
                                }
                            }
                            self.put(key, Value::Items(l));
                        } else {
                            proof {
                                assert(set_of_strings(l@) =~= Set::<Seq<char>>::empty());
                                assert(set_of_strings(olds).remove(value@) =~= Set::<
                                    Seq<char>,
                                >::empty());
                            }
                        }
                        return Ok(1);
                    }
                    i += 1;
                }
                proof {
                    assert(!set_of_strings(olds).contains(value@)) by {
                        if set_of_strings(olds).contains(value@) {
                            let j = choose|j: int| 0 <= j < olds.len() && olds[j]@ == value@;
                        }
                    }
                }
                self.put(key, Value::Items(l));
                Ok(0)
            },
            Some(v) => {
                self.put(key, v);
                Err(StoreError::WrongType)
            },
        }
    }

    /// The members of the collection under a key; an absent key has none. A
    /// key of another kind fails.
    pub fn set_query(&self, key: &str) -> (r: Result<Vec<String>, StoreError>)
        requires
            self.wf(),
        ensures
            (match self.val_of(key@) {
                None => (match r {
                    Ok(v) => v@.len() == 0,
                    _ => false,
                }),
                Some(ValueView::Items(s)) => (match r {
                    Ok(v) => nodup(v@) && set_of_strings(v@) == s,
                    _ => false,
                }),
                Some(_) => r == Err::<Vec<String>, StoreError>(StoreError::WrongType),
            }),
    {
        match self.find_key(key) {
            None => Ok(Vec::new()),
            Some(e) => match &self.entries[e].1 {
                Value::Items(l) => Ok(clone_string_vec(l)),
                _ => Err(StoreError::WrongType),
            },
        }
    }

    /// The intersection of the collections under one or more named keys: the
    /// members present in every one of them. A missing key has no members,
    /// so any missing key empties the intersection; a key of another kind
    /// fails. With no keys named, the result is empty.
    pub fn set_intersection(&self, keys: &Vec<String>) -> (r: Result<Vec<String>, StoreError>)
        requires
            self.wf(),
        ensures
            (if self.all_collections(keys@) {
                match r {
                    Ok(v) => nodup(v@) && set_of_strings(v@) == self.spec_inter(keys@),
                    _ => false,
                }
            } else {
                r == Err::<Vec<String>, StoreError>(StoreError::WrongType)
            }),
    {
        if keys.len() == 0 {
            let out: Vec<String> = Vec::new();
            proof {
                assert(set_of_strings(out@) =~= Set::<Seq<char>>::empty());
            }
            return Ok(out);
        }
        let mut acc = match self.set_query(keys[0].as_str()) {
            Ok(v) => v,
            Err(e) => {
                return Err(e);
            },
        };
        proof {
            assert(set_of_strings(acc@) =~= self.set_at(keys@[0]@));
        }
        let n = keys.len();
        let mut i: usize = 1;
        while i < n
            invariant
                n == keys@.len(),
                1 <= i <= n,
                self.wf(),
                nodup(acc@),
                set_of_strings(acc@) == self.spec_inter_upto(keys@, i as int),
                forall|j: int| 0 <= j < i ==> self.key_is_collection(#[trigger] keys@[j]@),
            decreases n - i,
        {
            let other = match self.set_query(keys[i].as_str()) {
                Ok(v) => v,
                Err(e) => {
                    return Err(e);
                },
            };
            proof {
                assert(set_of_strings(other@) =~= self.set_at(keys@[i as int]@));
            }
            acc = intersect_vec(&acc, &other);
            i += 1;
        }
        Ok(acc)
    }

    /// The union of the collections under the named keys: the members
    /// present in any of them. A missing key contributes no members; a key
    /// of another kind fails.
    pub fn set_union(&self, keys: &Vec<String>) -> (r: Result<Vec<String>, StoreError>)
        requires
            self.wf(),
        ensures
            (if self.all_collections(keys@) {
                match r {
                    Ok(v) => nodup(v@) && set_of_strings(v@) == self.spec_union_upto(
                        keys@,
                        keys@.len() as int,
                    ),
                    _ => false,
                }
            } else {
                r == Err::<Vec<String>, StoreError>(StoreError::WrongType)
            }),
    {
        let mut acc: Vec<String> = Vec::new();
        proof {
            assert(set_of_strings(acc@) =~= Set::<Seq<char>>::empty());
        }
        let n = keys.len();
        let mut i: usize = 0;
        while i < n
            invariant
                n == keys@.len(),
                0 <= i <= n,
                self.wf(),
                nodup(acc@),
                set_of_strings(acc@) == self.spec_union_upto(keys@, i as int),
                forall|j: int| 0 <= j < i ==> self.key_is_collection(#[trigger] keys@[j]@),
            decreases n - i,
        {
            let other = match self.set_query(keys[i].as_str()) {
                Ok(v) => v,
                Err(e) => {
                    return Err(e);
                },
            };
            proof {
                assert(set_of_strings(other@) =~= self.set_at(keys@[i as int]@));
            }
            acc = union_vec(&acc, &other);
            i += 1;
        }
        Ok(acc)
    }
}

proof fn lemma_nodup_remove_member(l: Seq<String>, i: int, x: Seq<char>)
    requires
        nodup(l),
        0 <= i < l.len(),
        l[i]@ == x,
    ensures
        nodup(l.remove(i)),
        set_of_strings(l.remove(i)) =~= set_of_strings(l).remove(x),
{
    let l1 = l.remove(i);
    assert forall|a: int, b: int| 0 <= a < b < l1.len() implies l1[a]@ != l1[b]@ by {
        let a0 = if a < i {
            a
        } else {
            a + 1
        };
        let b0 = if b < i {
            b
        } else {
            b + 1
        };
        assert(l1[a] == l[a0]);
        assert(l1[b] == l[b0]);
    }
    assert forall|y: Seq<char>| set_of_strings(l1).contains(y) implies set_of_strings(l).remove(
        x,
    ).contains(y) by {
        let a = choose|a: int| 0 <= a < l1.len() && l1[a]@ == y;
        let a0 = if a < i {
            a
        } else {
            a + 1
        };
        assert(l1[a] == l[a0]);
        assert(l[a0]@ == y);
        assert(y != x) by {
            assert(a0 != i);
        }
    }
    assert forall|y: Seq<char>| set_of_strings(l).remove(x).contains(y) implies set_of_strings(
        l1,
    ).contains(y) by {
        let a0 = choose|a0: int| 0 <= a0 < l.len() && l[a0]@ == y;
        assert(a0 != i);
        let a = if a0 < i {
            a0
        } else {
            a0 - 1
        };
        assert(l1[a] == l[a0]);
    }
}

/// The strings of `a` that also occur in `b`.
fn intersect_vec(a: &Vec<String>, b: &Vec<String>) -> (r: Vec<String>)
    requires
        nodup(a@),
    ensures
        nodup(r@),
        set_of_strings(r@) == set_of_strings(a@).intersect(set_of_strings(b@)),
{
    let n = a.len();
    let mut out: Vec<String> = Vec::new();
    let mut i: usize = 0;
    while i < n
        invariant
            n == a@.len(),
            0 <= i <= n,
            nodup(a@),
            nodup(out@),
            forall|x: Seq<char>|
                #[trigger] set_of_strings(out@).contains(x) <==> ((exists|t: int|
                    0 <= t < i && a@[t]@ == x) && set_of_strings(b@).contains(x)),
        decreases n - i,
    {
        let keep = contains_string(b, a[i].as_str());
        if keep {
            let ghost oldout = out@;
            out.push(a[i].clone());
            proof {
                assert(out@[out@.len() - 1] == a@[i as int]);
                assert forall|p: int, q: int| 0 <= p < q < out@.len() implies out@[p]@
                    != out@[q]@ by {
                    if q == out@.len() - 1 {
                        assert(out@[p] == oldout[p]);
                        if out@[p]@ == a@[i as int]@ {
                            assert(set_of_strings(oldout).contains(a@[i as int]@));
                            let t = choose|t: int| 0 <= t < i && a@[t]@ == a@[i as int]@;
                        }
                    } else {
                        assert(out@[p] == oldout[p]);
                        assert(out@[q] == oldout[q]);
                    }
                }
                assert forall|x: Seq<char>| #[trigger] set_of_strings(out@).contains(x) implies ((
                exists|t: int| 0 <= t < i + 1 && a@[t]@ == x) && set_of_strings(b@).contains(x))
                    by {
                    let p = choose|p: int| 0 <= p < out@.len() && out@[p]@ == x;
                    if p < oldout.len() {
                        assert(oldout[p]@ == x);
                        assert(set_of_strings(oldout).contains(x));
                    } else {
                        assert(a@[i as int]@ == x);
                    }
                }
                assert forall|x: Seq<char>|
                    ((exists|t: int| 0 <= t < i + 1 && a@[t]@ == x) && set_of_strings(
                        b@,
                    ).contains(x)) implies #[trigger] set_of_strings(out@).contains(x) by {
                    let t = choose|t: int| 0 <= t < i + 1 && a@[t]@ == x;
                    if t < i {
                        assert(set_of_strings(oldout).contains(x));
                        let p = choose|p: int| 0 <= p < oldout.len() && oldout[p]@ == x;
                        assert(out@[p]@ == x);
                    } else {
                        assert(out@[out@.len() - 1]@ == x);
                    }
                }
            }
        } else {
            proof {
                assert forall|x: Seq<char>|
                    ((exists|t: int| 0 <= t < i + 1 && a@[t]@ == x) && set_of_strings(
                        b@,
                    ).contains(x)) implies #[trigger] set_of_strings(out@).contains(x) by {
                    let t = choose|t: int| 0 <= t < i + 1 && a@[t]@ == x;
                    assert(t < i);
                }
            }
        }
        i += 1;
    }
    proof {
        assert forall|x: Seq<char>| set_of_strings(a@).intersect(set_of_strings(b@)).contains(x)
            implies set_of_strings(out@).contains(x) by {
            let t = choose|t: int| 0 <= t < a@.len() && a@[t]@ == x;
        }
        assert(set_of_strings(out@) =~= set_of_strings(a@).intersect(set_of_strings(b@)));
    }
    out
}

/// The strings of `a` followed by those of `b` not already present.
fn union_vec(a: &Vec<String>, b: &Vec<String>) -> (r: Vec<String>)
    requires
        nodup(a@),
        nodup(b@),
    ensures
        nodup(r@),
        set_of_strings(r@) == set_of_strings(a@).union(set_of_strings(b@)),
{
    let n = b.len();
    let mut out = clone_string_vec(a);
    let mut i: usize = 0;
    while i < n
        invariant
            n == b@.len(),
            0 <= i <= n,
            nodup(b@),
            nodup(out@),
            forall|x: Seq<char>|
                #[trigger] set_of_strings(out@).contains(x) <==> (set_of_strings(a@).contains(x)
                    || (exists|t: int| 0 <= t < i && b@[t]@ == x)),
        decreases n - i,
    {
        let present = contains_string(a, b[i].as_str());
        if !present {
            let ghost oldout = out@;
            out.push(b[i].clone());
            proof {
                assert(out@[out@.len() - 1] == b@[i as int]);
                assert forall|p: int, q: int| 0 <= p < q < out@.len() implies out@[p]@
                    != out@[q]@ by {
                    if q == out@.len() - 1 {
                        assert(out@[p] == oldout[p]);
                        if out@[p]@ == b@[i as int]@ {
                            assert(set_of_strings(oldout).contains(b@[i as int]@));
                        }
                    } else {
                        assert(out@[p] == oldout[p]);
                        assert(out@[q] == oldout[q]);
                    }
                }
                assert forall|x: Seq<char>| #[trigger] set_of_strings(out@).contains(x) implies (
                set_of_strings(a@).contains(x) || (exists|t: int| 0 <= t < i + 1 && b@[t]@ == x))
                    by {
                    let p = choose|p: int| 0 <= p < out@.len() && out@[p]@ == x;
                    if p < oldout.len() {
                        assert(oldout[p]@ == x);
                        assert(set_of_strings(oldout).contains(x));
                    } else {
                        assert(b@[i as int]@ == x);
                    }
                }
                assert forall|x: Seq<char>|
                    (set_of_strings(a@).contains(x) || (exists|t: int|
                        0 <= t < i + 1 && b@[t]@ == x)) implies #[trigger] set_of_strings(
                    out@,
                ).contains(x) by {
                    if set_of_strings(a@).contains(x) || (exists|t: int|
                        0 <= t < i && b@[t]@ == x) {
                        assert(set_of_strings(oldout).contains(x));
                        let p = choose|p: int| 0 <= p < oldout.len() && oldout[p]@ == x;
                        assert(out@[p]@ == x);
                    } else {
                        let t = choose|t: int| 0 <= t < i + 1 && b@[t]@ == x;
                        assert(t == i);
                        assert(out@[out@.len() - 1]@ == x);
                    }
                }
            }
        } else {
            proof {
                assert forall|x: Seq<char>|
                    (set_of_strings(a@).contains(x) || (exists|t: int|
                        0 <= t < i + 1 && b@[t]@ == x)) implies #[trigger] set_of_strings(
                    out@,
                ).contains(x) by {
                    if !set_of_strings(a@).contains(x) {
                        let t = choose|t: int| 0 <= t < i + 1 && b@[t]@ == x;
                        if t == i {
                            assert(set_of_strings(a@).contains(b@[i as int]@));
                        }
                    }
                }
            }
        }
        i += 1;
    }
    proof {
        assert forall|x: Seq<char>| set_of_strings(a@).union(set_of_strings(b@)).contains(x)
            implies set_of_strings(out@).contains(x) by {
            if !set_of_strings(a@).contains(x) {
                let t = choose|t: int| 0 <= t < b@.len() && b@[t]@ == x;
            }
        }
        assert(set_of_strings(out@) =~= set_of_strings(a@).union(set_of_strings(b@)));
    }
    out
}

/// The inclusive 0-based range of a list: a stop beyond the end is treated
/// as the end; a start past the end or beyond the stop yields nothing.
pub open spec fn spec_lrange(l: Seq<Seq<char>>, start: int, stop: int) -> Seq<Seq<char>> {
    if start >= l.len() || stop < start {
        Seq::empty()
    } else {
        l.subrange(
            start,
            if stop + 1 <= l.len() {
                stop + 1
            } else {
                l.len() as int
            },
        )
    }
}

proof fn lemma_kv_remove_effect(pre: KvStore, post: KvStore, i: int)
    requires
        pre.wf(),
        0 <= i < pre.entries@.len(),
        post.entries@ == pre.entries@.remove(i),
    ensures
        post.wf(),
        post.val_of(pre.key_at(i)) is None,
        forall|k: Seq<char>| k != pre.key_at(i) ==> post.val_of(k) == pre.val_of(k),
{
    let removed = pre.key_at(i);
    assert forall|a: int, b: int| 0 <= a < b < post.entries@.len() implies #[trigger] post.key_at(a)
        != #[trigger] post.key_at(b) by {
        let a0 = if a < i {
            a
        } else {
            a + 1
        };
        let b0 = if b < i {
            b
        } else {
            b + 1
        };
        assert(post.key_at(a) == pre.key_at(a0));
        assert(post.key_at(b) == pre.key_at(b0));
    }
    assert forall|a: int| 0 <= a < post.entries@.len() implies (#[trigger] post.entries@[a].1).wf()
        by {
        let a0 = if a < i {
            a
        } else {
            a + 1
        };
        assert(post.entries@[a].1 == pre.entries@[a0].1);
        assert(pre.entries@[a0].1.wf());
    }
    assert forall|k: Seq<char>| post.has_key(k) implies k != removed && pre.has_key(k)
        && post.val_of(k) == pre.val_of(k) by {
        let a = choose|a: int| 0 <= a < post.entries@.len() && #[trigger] post.key_at(a) == k;
        let a0 = if a < i {
            a
        } else {
            a + 1
        };
        assert(post.key_at(a) == pre.key_at(a0));
        assert(pre.has_key(k));
        let m = choose|m: int| 0 <= m < pre.entries@.len() && #[trigger] pre.key_at(m) == k;
        assert(m == a0);
        assert(post.entries@[a].1 == pre.entries@[a0].1);
    }
    assert forall|k: Seq<char>| pre.has_key(k) && k != removed implies post.has_key(k) by {
        let m = choose|m: int| 0 <= m < pre.entries@.len() && #[trigger] pre.key_at(m) == k;
        let m1 = if m < i {
            m
        } else {
            m - 1
        };
        assert(post.key_at(m1) == pre.key_at(m));
    }
    assert(!post.has_key(removed));
}

proof fn lemma_kv_push_effect(pre: KvStore, post: KvStore, k: Seq<char>, vv: ValueView)
    requires
        pre.wf(),
        !pre.has_key(k),
        post.entries@.len() == pre.entries@.len() + 1,
        post.entries@.subrange(0, pre.entries@.len() as int) == pre.entries@,
        post.key_at(pre.entries@.len() as int) == k,
        post.entries@[pre.entries@.len() as int].1@ == vv,
        post.entries@[pre.entries@.len() as int].1.wf(),
    ensures
        post.wf(),
        post.val_of(k) == Some(vv),
        forall|k2: Seq<char>| k2 != k ==> post.val_of(k2) == pre.val_of(k2),
{
    let n = pre.entries@.len() as int;
    assert forall|j: int| 0 <= j < n implies post.entries@[j] == pre.entries@[j] by {
        assert(post.entries@.subrange(0, n)[j] == post.entries@[j]);
    }
    assert forall|a: int, b: int| 0 <= a < b < post.entries@.len() implies #[trigger] post.key_at(a)
        != #[trigger] post.key_at(b) by {
        if b < n {
            assert(post.key_at(a) == pre.key_at(a));
            assert(post.key_at(b) == pre.key_at(b));
        } else {
            assert(post.key_at(b) == k);
            assert(post.key_at(a) == pre.key_at(a));
            assert(!pre.has_key(k));
        }
    }
    assert forall|a: int| 0 <= a < post.entries@.len() implies (#[trigger] post.entries@[a].1).wf()
        by {
        if a < n {
            assert(post.entries@[a].1 == pre.entries@[a].1);
            assert(pre.entries@[a].1.wf());
        }
    }
    assert(post.has_key(k));
    let w = choose|w: int| 0 <= w < post.entries@.len() && #[trigger] post.key_at(w) == k;
    assert(w == n);
    assert forall|k2: Seq<char>| k2 != k implies post.val_of(k2) == pre.val_of(k2) by {
        if pre.has_key(k2) {
            let m = choose|m: int| 0 <= m < pre.entries@.len() && #[trigger] pre.key_at(m) == k2;
            assert(post.key_at(m) == k2);
            let m1 = choose|m1: int|
                0 <= m1 < post.entries@.len() && #[trigger] post.key_at(m1) == k2;
            assert(m1 == m);
        } else {
            if post.has_key(k2) {
                let m1 = choose|m1: int|
                    0 <= m1 < post.entries@.len() && #[trigger] post.key_at(m1) == k2;
                if m1 < n {
                    assert(post.key_at(m1) == pre.key_at(m1));
                }
                assert(m1 == n);
            }
        }
    }
}

} // verus!
