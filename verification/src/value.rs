use crate::lua::FunctionRef;
use vstd::prelude::*;
use vstd::string::*;

verus! {

/// A dynamically typed value: the exchange format between native systems and
/// the scripting environment.
///
/// A floating-point number is carried as its IEEE-754 binary64 bit pattern.
/// A table is a list of key/value entries; where a key occurs more than once,
/// the last entry counts.
pub enum Dynamic {
    Nil,
    Bool(bool),
    Int(i64),
    Float(u64),
    Str(String),
    Table(Vec<(Dynamic, Dynamic)>),
    Function(FunctionRef),
}

/// The mathematical model of a [`Dynamic`]. A function reference is opaque:
/// the model records only that the value is one.
pub enum DynamicView {
    Nil,
    Bool(bool),
    Int(i64),
    Float(u64),
    Str(Seq<char>),
    Table(Seq<(DynamicView, DynamicView)>),
    Function,
}

/// The value stored under `key` in a list of table entries, `Nil` if there is
/// none. The last entry with that key counts.
pub open spec fn lookup(entries: Seq<(DynamicView, DynamicView)>, key: DynamicView) -> DynamicView
    decreases entries.len(),
{
    if entries.len() == 0 {
        DynamicView::Nil
    } else if entries.last().0 == key {
        entries.last().1
    } else {
        lookup(entries.drop_last(), key)
    }
}

/// Whether some entry of the list has the key `key`.
pub open spec fn has_key(entries: Seq<(DynamicView, DynamicView)>, key: DynamicView) -> bool {
    exists|i: int| 0 <= i < entries.len() && (#[trigger] entries[i]).0 == key
}

/// A table without the key `key` yields `Nil` for it.
pub proof fn lemma_lookup_absent(entries: Seq<(DynamicView, DynamicView)>, key: DynamicView)
    requires
        !has_key(entries, key),
    ensures
        lookup(entries, key) == DynamicView::Nil,
    decreases entries.len(),
{
    if entries.len() > 0 {
        assert(entries[entries.len() - 1].0 != key);
        assert forall|i: int| 0 <= i < entries.drop_last().len() implies (#[trigger] entries.drop_last()[i]).0 != key by {
            assert(entries[i].0 != key);
        }
        lemma_lookup_absent(entries.drop_last(), key);
    }
}

/// The last entry with a key decides what is found under it.
pub proof fn lemma_lookup_last(entries: Seq<(DynamicView, DynamicView)>, key: DynamicView, at: int)
    requires
        0 <= at < entries.len(),
        entries[at].0 == key,
        forall|j: int| at < j < entries.len() ==> (#[trigger] entries[j]).0 != key,
    ensures
        lookup(entries, key) == entries[at].1,
    decreases entries.len(),
{
    if at < entries.len() - 1 {
        assert(entries[entries.len() - 1].0 != key);
        assert forall|j: int| at < j < entries.drop_last().len() implies (#[trigger] entries.drop_last()[j]).0 != key by {
            assert(entries[j].0 != key);
        }
        lemma_lookup_last(entries.drop_last(), key, at);
    }
}

/// The position of the last entry with the key `key`, -1 if there is none.
pub open spec fn last_position(entries: Seq<(DynamicView, DynamicView)>, key: DynamicView) -> int
    decreases entries.len(),
{
    if entries.len() == 0 {
        -1
    } else if entries.last().0 == key {
        entries.len() - 1
    } else {
        last_position(entries.drop_last(), key)
    }
}

/// The entries with `value` in place of what the last entry with the key
/// `key` holds; the entries as they are if there is no such entry.
pub open spec fn replaced(
    entries: Seq<(DynamicView, DynamicView)>,
    key: DynamicView,
    value: DynamicView,
) -> Seq<(DynamicView, DynamicView)> {
    if last_position(entries, key) >= 0 {
        entries.update(last_position(entries, key), (key, value))
    } else {
        entries
    }
}

/// The last position with a key lies in the list, holds the key, and no
/// later position does; where there is none, no position holds the key.
pub proof fn lemma_last_position(entries: Seq<(DynamicView, DynamicView)>, key: DynamicView)
    ensures
        -1 <= last_position(entries, key) < entries.len(),
        last_position(entries, key) >= 0 ==> entries[last_position(entries, key)].0 == key,
        forall|j: int| last_position(entries, key) < j < entries.len() ==> (#[trigger] entries[j]).0 != key,
        last_position(entries, key) >= 0 <==> has_key(entries, key),
    decreases entries.len(),
{
    if entries.len() > 0 {
        if entries.last().0 != key {
            lemma_last_position(entries.drop_last(), key);
            assert forall|j: int| last_position(entries, key) < j < entries.len() implies (
            #[trigger] entries[j]).0 != key by {
                if j < entries.len() - 1 {
                    assert(entries.drop_last()[j] == entries[j]);
                }
            }
            if has_key(entries, key) {
                let i = choose|i: int| 0 <= i < entries.len() && (#[trigger] entries[i]).0 == key;
                assert(entries.drop_last()[i] == entries[i]);
            }
            if has_key(entries.drop_last(), key) {
                let i = choose|i: int|
                    0 <= i < entries.drop_last().len() && (#[trigger] entries.drop_last()[i]).0 == key;
                assert(entries[i].0 == key);
            }
        } else {
            assert(entries[entries.len() - 1].0 == key);
        }
    }
}

/// After a replacement the key yields the new value, if it was there at
/// all, and every other key yields what it did.
pub proof fn lemma_replaced_lookup(
    entries: Seq<(DynamicView, DynamicView)>,
    key: DynamicView,
    value: DynamicView,
    other: DynamicView,
)
    ensures
        lookup(replaced(entries, key, value), other) == (if other == key && has_key(entries, key) {
            value
        } else {
            lookup(entries, other)
        }),
    decreases entries.len(),
{
    lemma_last_position(entries, key);
    if entries.len() > 0 {
        let front = entries.drop_last();
        lemma_last_position(front, key);
        lemma_replaced_lookup(front, key, value, other);
        if entries.last().0 == key {
            assert(replaced(entries, key, value).drop_last() =~= front);
        } else {
            assert(replaced(entries, key, value).drop_last() =~= replaced(front, key, value));
            assert(replaced(entries, key, value).last() == entries.last());
        }
    }
}

impl DynamicView {
    /// The entries of a table; no entries for any other value.
    pub open spec fn entries(self) -> Seq<(DynamicView, DynamicView)> {
        match self {
            DynamicView::Table(entries) => entries,
            _ => Seq::empty(),
        }
    }

    /// The value under the string key `name`; `Nil` where `self` is no table
    /// or has no such key.
    pub open spec fn field(self, name: Seq<char>) -> DynamicView {
        lookup(self.entries(), DynamicView::Str(name))
    }
}

/// The models of a list of table entries, one for one.
pub open spec fn entry_views(entries: Seq<(Dynamic, Dynamic)>) -> Seq<(DynamicView, DynamicView)>
    decreases entries,
{
    if entries.len() == 0 {
        Seq::empty()
    } else {
        entry_views(entries.drop_last()).push((entries.last().0.view(), entries.last().1.view()))
    }
}

impl View for Dynamic {
    type V = DynamicView;

    open spec fn view(&self) -> DynamicView
        decreases self,
    {
        match self {
            Dynamic::Nil => DynamicView::Nil,
            Dynamic::Bool(b) => DynamicView::Bool(*b),
            Dynamic::Int(i) => DynamicView::Int(*i),
            Dynamic::Float(bits) => DynamicView::Float(*bits),
            Dynamic::Str(s) => DynamicView::Str(s@),
            Dynamic::Table(entries) => DynamicView::Table(entry_views(entries@)),
            Dynamic::Function(_) => DynamicView::Function,
        }
    }
}

/// The registry keys of the function references in a list of table entries,
/// in the order in which they occur.
pub open spec fn entry_keys(entries: Seq<(Dynamic, Dynamic)>) -> Seq<rlua::RegistryKey>
    decreases entries,
{
    if entries.len() == 0 {
        Seq::empty()
    } else {
        entry_keys(entries.drop_last()) + entries.last().0.held() + entries.last().1.held()
    }
}

/// The keys of a list of entries with one more entry are the keys of the
/// list followed by those of the entry.
pub proof fn lemma_entry_keys_push(entries: Seq<(Dynamic, Dynamic)>, entry: (Dynamic, Dynamic))
    ensures
        entry_keys(entries.push(entry)) == entry_keys(entries) + entry.0.held() + entry.1.held(),
{
    assert(entries.push(entry).drop_last() =~= entries);
}

/// Whether a value holds no function reference, neither itself nor in any
/// table in it.
pub open spec fn plain(value: DynamicView) -> bool
    decreases value,
{
    match value {
        DynamicView::Function => false,
        DynamicView::Table(entries) => forall|i: int|
            0 <= i < entries.len() ==> plain((#[trigger] entries[i]).0) && plain(entries[i].1),
        _ => true,
    }
}

/// Entries that hold no function reference have no keys.
pub proof fn lemma_plain_entries(entries: Seq<(Dynamic, Dynamic)>)
    requires
        forall|i: int|
            0 <= i < entries.len() ==> plain((#[trigger] entries[i]).0@) && plain(entries[i].1@),
    ensures
        entry_keys(entries) == Seq::<rlua::RegistryKey>::empty(),
    decreases entries, 0nat,
{
    if entries.len() > 0 {
        assert forall|i: int| 0 <= i < entries.drop_last().len() implies plain(
            (#[trigger] entries.drop_last()[i]).0@,
        ) && plain(entries.drop_last()[i].1@) by {
            assert(entries.drop_last()[i] == entries[i]);
        }
        lemma_plain_entries(entries.drop_last());
        assert(plain(entries[entries.len() - 1].0@));
        lemma_plain_holds_nothing(entries.last().0);
        lemma_plain_holds_nothing(entries.last().1);
        assert(entry_keys(entries) =~= Seq::<rlua::RegistryKey>::empty());
    }
}

/// A value whose model holds no function reference refers to no function.
pub proof fn lemma_plain_holds_nothing(value: Dynamic)
    requires
        plain(value@),
    ensures
        value.held() == Seq::<rlua::RegistryKey>::empty(),
    decreases value, 1nat,
{
    match value {
        Dynamic::Table(entries) => {
            lemma_table_view(entries);
            assert forall|i: int| 0 <= i < entries@.len() implies plain((#[trigger] entries@[i]).0@)
                && plain(entries@[i].1@) by {
                assert(value@.entries()[i] == (entries@[i].0@, entries@[i].1@));
                assert(plain(value@.entries()[i].0));
            }
            lemma_plain_entries(entries@);
        },
        _ => {},
    }
}

/// The models of entries are as many as the entries, and each is the pair of
/// the models of its key and its value.
pub proof fn lemma_entry_views(entries: Seq<(Dynamic, Dynamic)>)
    ensures
        entry_views(entries).len() == entries.len(),
        forall|i: int|
            0 <= i < entries.len() ==> #[trigger] entry_views(entries)[i] == (
                entries[i].0@,
                entries[i].1@,
            ),
    decreases entries.len(),
{
    if entries.len() > 0 {
        lemma_entry_views(entries.drop_last());
        assert(entry_views(entries) == entry_views(entries.drop_last()).push(
            (entries.last().0.view(), entries.last().1.view()),
        ));
    } else {
        assert(entry_views(entries) == Seq::<(DynamicView, DynamicView)>::empty());
    }
}

/// The model of a table lists the models of its entries, one for one.
pub proof fn lemma_table_view(entries: Vec<(Dynamic, Dynamic)>)
    ensures
        Dynamic::Table(entries)@ == DynamicView::Table(entry_views(entries@)),
        Dynamic::Table(entries)@.entries().len() == entries@.len(),
        forall|i: int|
            0 <= i < entries@.len() ==> #[trigger] Dynamic::Table(entries)@.entries()[i] == (
                entries@[i].0@,
                entries@[i].1@,
            ),
{
    lemma_entry_views(entries@);
}

/// The models of a list of values, one for one.
pub open spec fn views(values: Seq<Dynamic>) -> Seq<DynamicView> {
    Seq::new(values.len(), |i: int| values[i]@)
}

impl Dynamic {
    /// The registry keys of the function references in the value, in the
    /// order in which they occur: which functions of the scripting
    /// environment the value refers to. The model of a value does not tell.
    pub open spec fn held(&self) -> Seq<rlua::RegistryKey>
        decreases self,
    {
        match self {
            Dynamic::Function(function) => seq![function.held()],
            Dynamic::Table(entries) => entry_keys(entries@),
            _ => Seq::empty(),
        }
    }

    pub fn is_nil(&self) -> (b: bool)
        ensures
            b == (self@ is Nil),
    {
        match self {
            Dynamic::Nil => true,
            _ => false,
        }
    }

    pub fn is_table(&self) -> (b: bool)
        ensures
            b == (self@ is Table),
    {
        match self {
            Dynamic::Table(_) => true,
            _ => false,
        }
    }

    /// A text value.
    pub fn text(s: &str) -> (v: Dynamic)
        ensures
            v@ == DynamicView::Str(s@),
    {
        Dynamic::Str(String::from_str(s))
    }

    /// A deep copy. A function reference in it refers to the same function
    /// as the one it was copied from.
    pub fn duplicate(&self) -> (copy: Dynamic)
        ensures
            copy@ == self@,
            copy.held() == self.held(),
        decreases self,
    {
        match self {
            Dynamic::Nil => Dynamic::Nil,
            Dynamic::Bool(b) => Dynamic::Bool(*b),
            Dynamic::Int(i) => Dynamic::Int(*i),
            Dynamic::Float(bits) => Dynamic::Float(*bits),
            Dynamic::Str(s) => Dynamic::Str(s.clone()),
            Dynamic::Table(entries) => {
                let mut out: Vec<(Dynamic, Dynamic)> = Vec::new();
                let mut i: usize = 0;
                while i < entries.len()
                    invariant
                        *self == Dynamic::Table(*entries),
                        i <= entries.len(),
                        out@.len() == i,
                        forall|j: int|
                            0 <= j < i ==> out@[j].0@ == entries@[j].0@ && out@[j].1@
                                == entries@[j].1@,
                        entry_keys(out@) == entry_keys(entries@.subrange(0, i as int)),
                    decreases entries.len() - i,
                {
                    proof {
                        assert(decreases_to!(*self => self->Table_0));
                        assert(decreases_to!(*entries => entries[i as int]));
                        assert(decreases_to!(entries[i as int] => entries[i as int].0));
                        assert(decreases_to!(entries[i as int] => entries[i as int].1));
                    }
                    let k = entries[i].0.duplicate();
                    let v = entries[i].1.duplicate();
                    proof {
                        lemma_entry_keys_push(out@, (k, v));
                        lemma_entry_keys_push(entries@.subrange(0, i as int), entries@[i as int]);
                        assert(entries@.subrange(0, i + 1) =~= entries@.subrange(0, i as int).push(
                            entries@[i as int],
                        ));
                    }
                    out.push((k, v));
                    i += 1;
                }
                let copy = Dynamic::Table(out);
                proof {
                    lemma_table_view(out);
                    lemma_table_view(*entries);
                    assert(copy@.entries() =~= self@.entries());
                    assert(entries@.subrange(0, entries@.len() as int) =~= entries@);
                }
                copy
            },
            Dynamic::Function(f) => Dynamic::Function(f.duplicate()),
        }
    }

    /// The table with `value` in place of what its last entry under the
    /// text key `name` holds. A table without such an entry, and a value
    /// that is no table, come back as they are.
    pub fn with_field(&self, name: &str, value: Dynamic) -> (r: Dynamic)
        ensures
            r@ == (match self@ {
                DynamicView::Table(entries) => DynamicView::Table(
                    replaced(entries, DynamicView::Str(name@), value@),
                ),
                _ => self@,
            }),
            has_key(self@.entries(), DynamicView::Str(name@)) ==> r@.field(name@) == value@,
    {
        let ghost key = DynamicView::Str(name@);
        let copy = self.duplicate();
        match copy {
            Dynamic::Table(mut entries) => {
                let ghost before = entries@;
                proof {
                    lemma_table_view(entries);
                    lemma_last_position(self@.entries(), key);
                }
                let wanted = String::from_str(name);
                let mut i: usize = entries.len();
                while i > 0
                    invariant
                        entries@ == before,
                        key == DynamicView::Str(name@),
                        wanted@ == name@,
                        i <= entries.len(),
                        self@ is Table,
                        self@.entries().len() == before.len(),
                        forall|j: int|
                            0 <= j < before.len() ==> #[trigger] self@.entries()[j] == (
                                before[j].0@,
                                before[j].1@,
                            ),
                        forall|j: int| i <= j < before.len() ==> (#[trigger] self@.entries()[j]).0 != key,
                    decreases i,
                {
                    i -= 1;
                    let hit = match &entries[i].0 {
                        Dynamic::Str(s) => *s == wanted,
                        _ => false,
                    };
                    if hit {
                        let ghost given = value@;
                        entries.set(i, (Dynamic::Str(wanted), value));
                        proof {
                            assert(self@.entries()[i as int].0 == key);
                            lemma_last_position(self@.entries(), key);
                            assert(last_position(self@.entries(), key) == i);
                            lemma_replaced_lookup(self@.entries(), key, given, key);
                            lemma_table_view(entries);
                            assert(Dynamic::Table(entries)@.entries() =~= self@.entries().update(
                                i as int,
                                (key, given),
                            ));
                        }
                        return Dynamic::Table(entries);
                    }
                    assert(self@.entries()[i as int].0 != key);
                }
                proof {
                    lemma_last_position(self@.entries(), key);
                    assert(last_position(self@.entries(), key) == -1) by {
                        if last_position(self@.entries(), key) >= 0 {
                            assert(self@.entries()[last_position(self@.entries(), key)].0 == key);
                        }
                    }
                    lemma_table_view(entries);
                    assert(Dynamic::Table(entries)@.entries() =~= self@.entries());
                }
                Dynamic::Table(entries)
            },
            other => {
                assert(!has_key(self@.entries(), key));
                other
            },
        }
    }

    /// Whether two values have the same model: the same shape, and equal
    /// entries in the same order. Any two function references count as the
    /// same.
    pub fn same(&self, other: &Dynamic) -> (b: bool)
        ensures
            b == (self@ == other@),
        decreases self,
    {
        match (self, other) {
            (Dynamic::Nil, Dynamic::Nil) => true,
            (Dynamic::Bool(a), Dynamic::Bool(b)) => *a == *b,
            (Dynamic::Int(a), Dynamic::Int(b)) => *a == *b,
            (Dynamic::Float(a), Dynamic::Float(b)) => *a == *b,
            (Dynamic::Str(a), Dynamic::Str(b)) => *a == *b,
            (Dynamic::Function(_), Dynamic::Function(_)) => true,
            (Dynamic::Table(a), Dynamic::Table(b)) => {
                proof {
                    lemma_table_view(*a);
                    lemma_table_view(*b);
                }
                if a.len() != b.len() {
                    assert(self@.entries().len() != other@.entries().len());
                    return false;
                }
                let mut i: usize = 0;
                while i < a.len()
                    invariant
                        *self == Dynamic::Table(*a),
                        *other == Dynamic::Table(*b),
                        a.len() == b.len(),
                        i <= a.len(),
                        self@.entries().len() == a@.len(),
                        other@.entries().len() == b@.len(),
                        forall|j: int|
                            0 <= j < a@.len() ==> #[trigger] self@.entries()[j] == (a@[j].0@, a@[j].1@),
                        forall|j: int|
                            0 <= j < b@.len() ==> #[trigger] other@.entries()[j] == (b@[j].0@, b@[j].1@),
                        forall|j: int|
                            0 <= j < i ==> a@[j].0@ == b@[j].0@ && a@[j].1@ == b@[j].1@,
                    decreases a.len() - i,
                {
                    proof {
                        assert(decreases_to!(*self => self->Table_0));
                        assert(decreases_to!(*a => a[i as int]));
                        assert(decreases_to!(a[i as int] => a[i as int].0));
                        assert(decreases_to!(a[i as int] => a[i as int].1));
                    }
                    if !a[i].0.same(&b[i].0) || !a[i].1.same(&b[i].1) {
                        assert(self@.entries()[i as int] != other@.entries()[i as int]);
                        return false;
                    }
                    i += 1;
                }
                assert(self@.entries() =~= other@.entries());
                true
            },
            _ => false,
        }
    }

    /// The value stored under the string key `name`, if `self` is a table
    /// with such a key.
    pub fn field(&self, name: &str) -> (r: Option<&Dynamic>)
        ensures
            r is Some <==> has_key(self@.entries(), DynamicView::Str(name@)),
            r matches Some(v) ==> v@ == self@.field(name@),
            r is None ==> self@.field(name@) is Nil,
    {
        let ghost key = DynamicView::Str(name@);
        match self {
            Dynamic::Table(entries) => {
                let wanted = String::from_str(name);
                let mut i: usize = entries.len();
                proof {
                    lemma_table_view(*entries);
                }
                while i > 0
                    invariant
                        *self == Dynamic::Table(*entries),
                        key == DynamicView::Str(name@),
                        wanted@ == name@,
                        i <= entries.len(),
                        self@.entries().len() == entries@.len(),
                        forall|j: int|
                            0 <= j < entries@.len() ==> #[trigger] self@.entries()[j] == (
                                entries@[j].0@,
                                entries@[j].1@,
                            ),
                        forall|j: int| i <= j < entries.len() ==> (#[trigger] self@.entries()[j]).0 != key,
                    decreases i,
                {
                    i -= 1;
                    let hit = match &entries[i].0 {
                        Dynamic::Str(s) => *s == wanted,
                        _ => false,
                    };
                    if hit {
                        proof {
                            assert(self@.entries()[i as int].0 == key);
                            lemma_lookup_last(self@.entries(), key, i as int);
                        }
                        return Some(&entries[i].1);
                    }
                    assert(self@.entries()[i as int].0 != key);
                }
                proof {
                    lemma_lookup_absent(self@.entries(), key);
                }
                None
            },
            _ => {
                assert(self@.entries() =~= Seq::empty());
                None
            },
        }
    }
}

} // verus!
