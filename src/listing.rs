use vstd::prelude::*;

use crate::text::{chars_of, same_chars};

verus! {

/// What a filesystem object is, as the wire format names it.
#[derive(Clone, Copy, PartialEq, Eq, Structural, Debug)]
pub enum FType {
    File,
    Folder,
    Error,
}

/// The order of kinds by their names: `Error` < `File` < `Folder`.
pub open spec fn kind_rank(k: FType) -> int {
    match k {
        FType::Error => 0,
        FType::File => 1,
        FType::Folder => 2,
    }
}

fn rank(k: FType) -> (r: u8)
    ensures
        r == kind_rank(k),
{
    match k {
        FType::Error => 0,
        FType::File => 1,
        FType::Folder => 2,
    }
}

/// The key by which a listing is ordered.
#[derive(Clone, Copy, PartialEq, Eq, Structural, Debug)]
pub enum Sort {
    Name,
    Type,
    Size,
    Date,
}

/// One filesystem object of a listing; `created` is in seconds since the epoch.
pub struct Entry {
    pub name: String,
    pub ftype: FType,
    pub size: u64,
    pub created: u64,
}

pub struct EntryView {
    pub name: Seq<char>,
    pub ftype: FType,
    pub size: u64,
    pub created: u64,
}

impl View for Entry {
    type V = EntryView;

    open spec fn view(&self) -> EntryView {
        EntryView { name: self.name@, ftype: self.ftype, size: self.size, created: self.created }
    }
}

/// The placeholder entry that carries a failure message in place of metadata.
pub open spec fn error_view(msg: Seq<char>) -> EntryView {
    EntryView { name: msg, ftype: FType::Error, size: 0, created: 0 }
}

impl Entry {
    pub fn error(msg: &str) -> (r: Entry)
        ensures
            r@ == error_view(msg@),
    {
        Entry { name: msg.to_owned(), ftype: FType::Error, size: 0, created: 0 }
    }
}

pub open spec fn entry_views(s: Seq<Entry>) -> Seq<EntryView> {
    s.map_values(|e: Entry| e@)
}

/// Strict lexicographic order on character sequences, by code point.
pub open spec fn name_lt(a: Seq<char>, b: Seq<char>) -> bool
    decreases a.len(),
{
    if a.len() == 0 {
        b.len() > 0
    } else if b.len() == 0 {
        false
    } else if a[0] != b[0] {
        (a[0] as u32) < (b[0] as u32)
    } else {
        name_lt(a.drop_first(), b.drop_first())
    }
}

pub proof fn lemma_name_lt_asymmetric(a: Seq<char>, b: Seq<char>)
    ensures
        !(name_lt(a, b) && name_lt(b, a)),
    decreases a.len(),
{
    if a.len() > 0 && b.len() > 0 && a[0] == b[0] {
        lemma_name_lt_asymmetric(a.drop_first(), b.drop_first());
    }
}

/// Whether `a` strictly goes before `b` under `k`: names ascending; kinds,
/// sizes and dates descending.
pub open spec fn precedes(k: Sort, a: EntryView, b: EntryView) -> bool {
    match k {
        Sort::Name => name_lt(a.name, b.name),
        Sort::Type => kind_rank(a.ftype) > kind_rank(b.ftype),
        Sort::Size => a.size > b.size,
        Sort::Date => a.created > b.created,
    }
}

pub proof fn lemma_precedes_asymmetric(k: Sort, a: EntryView, b: EntryView)
    ensures
        !(precedes(k, a, b) && precedes(k, b, a)),
{
    if k is Name {
        lemma_name_lt_asymmetric(a.name, b.name);
    }
}

/// No entry strictly goes before the one in front of it.
pub open spec fn sorted_by(s: Seq<EntryView>, k: Sort) -> bool {
    forall|i: int| 0 <= i < s.len() - 1 ==> !#[trigger] precedes(k, s[i + 1], s[i])
}

/// Where `x` goes in `s`: after every entry that it does not strictly precede.
pub open spec fn insert_pos(s: Seq<EntryView>, x: EntryView, k: Sort) -> int
    decreases s.len(),
{
    if s.len() == 0 {
        0
    } else if precedes(k, x, s.last()) {
        insert_pos(s.drop_last(), x, k)
    } else {
        s.len() as int
    }
}

pub open spec fn insert_sorted(s: Seq<EntryView>, x: EntryView, k: Sort) -> Seq<EntryView> {
    s.insert(insert_pos(s, x, k), x)
}

/// The stable sort of `s` under `k`: equal keys keep their order.
pub open spec fn sort_entries(s: Seq<EntryView>, k: Sort) -> Seq<EntryView>
    decreases s.len(),
{
    if s.len() == 0 {
        s
    } else {
        insert_sorted(sort_entries(s.drop_last(), k), s.last(), k)
    }
}

/// How many entries of `s` are error placeholders.
pub open spec fn error_count(s: Seq<EntryView>) -> nat
    decreases s.len(),
{
    if s.len() == 0 {
        0
    } else {
        error_count(s.drop_last()) + if s.last().ftype is Error {
            1nat
        } else {
            0nat
        }
    }
}

proof fn lemma_insert_pos(s: Seq<EntryView>, x: EntryView, k: Sort)
    ensures
        0 <= insert_pos(s, x, k) <= s.len(),
        insert_pos(s, x, k) > 0 ==> !precedes(k, x, s[insert_pos(s, x, k) - 1]),
        insert_pos(s, x, k) < s.len() ==> precedes(k, x, s[insert_pos(s, x, k)]),
    decreases s.len(),
{
    if s.len() > 0 && precedes(k, x, s.last()) {
        lemma_insert_pos(s.drop_last(), x, k);
    }
}

proof fn lemma_insert_keeps_order(s: Seq<EntryView>, x: EntryView, k: Sort)
    requires
        sorted_by(s, k),
    ensures
        sorted_by(insert_sorted(s, x, k), k),
        insert_sorted(s, x, k).len() == s.len() + 1,
{
    lemma_insert_pos(s, x, k);
    let p = insert_pos(s, x, k);
    let r = insert_sorted(s, x, k);
    assert forall|i: int| 0 <= i < r.len() - 1 implies !#[trigger] precedes(k, r[i + 1], r[i]) by {
        if i + 1 < p {
            assert(r[i] == s[i] && r[i + 1] == s[i + 1]);
        } else if i + 1 == p {
            assert(r[i] == s[p - 1] && r[i + 1] == x);
        } else if i == p {
            assert(r[i] == x && r[i + 1] == s[p]);
            lemma_precedes_asymmetric(k, x, s[p]);
        } else {
            assert(r[i] == s[i - 1] && r[i + 1] == s[i]);
            assert(!precedes(k, s[(i - 1) + 1], s[i - 1]));
        }
    }
}

proof fn lemma_insert_error_count(s: Seq<EntryView>, p: int, x: EntryView)
    requires
        0 <= p <= s.len(),
    ensures
        error_count(s.insert(p, x)) == error_count(s) + if x.ftype is Error {
            1nat
        } else {
            0nat
        },
    decreases s.len(),
{
    if p == s.len() {
        assert(s.insert(p, x).drop_last() =~= s);
    } else {
        assert(s.insert(p, x).drop_last() =~= s.drop_last().insert(p, x));
        lemma_insert_error_count(s.drop_last(), p, x);
    }
}

proof fn lemma_insert_multiset(s: Seq<EntryView>, p: int, x: EntryView)
    requires
        0 <= p <= s.len(),
    ensures
        s.insert(p, x).to_multiset() =~= s.to_multiset().insert(x),
{
    broadcast use vstd::seq_lib::group_to_multiset_ensures;

    let r = s.insert(p, x);
    assert(r.remove(p) =~= s);
    assert(r[p] == x);
    assert(r.contains(x));
    assert(r.to_multiset().remove(x) =~= s.to_multiset());
    assert(r.to_multiset().count(x) > 0);
}

/// Sorting keeps the entries (as a multiset), their number and the number of
/// error placeholders, and orders the result under `k`.
pub proof fn lemma_sort_entries(s: Seq<EntryView>, k: Sort)
    ensures
        sort_entries(s, k).to_multiset() =~= s.to_multiset(),
        sort_entries(s, k).len() == s.len(),
        error_count(sort_entries(s, k)) == error_count(s),
        sorted_by(sort_entries(s, k), k),
    decreases s.len(),
{
    if s.len() > 0 {
        let rest = sort_entries(s.drop_last(), k);
        lemma_sort_entries(s.drop_last(), k);
        lemma_insert_keeps_order(rest, s.last(), k);
        lemma_insert_pos(rest, s.last(), k);
        lemma_insert_error_count(rest, insert_pos(rest, s.last(), k), s.last());
        lemma_insert_multiset(rest, insert_pos(rest, s.last(), k), s.last());
        assert(s =~= s.drop_last().push(s.last()));
        vstd::seq_lib::to_multiset_build(s.drop_last(), s.last());
    }
}


proof fn lemma_name_lt_skip(a: Seq<char>, b: Seq<char>, i: int)
    requires
        0 <= i < a.len(),
        i < b.len(),
        a[i] == b[i],
    ensures
        name_lt(a.skip(i), b.skip(i)) == name_lt(a.skip(i + 1), b.skip(i + 1)),
{
    assert(a.skip(i).drop_first() =~= a.skip(i + 1));
    assert(b.skip(i).drop_first() =~= b.skip(i + 1));
}

/// Whether name `a` comes strictly before name `b`.
pub fn name_before(a: &String, b: &String) -> (r: bool)
    ensures
        r == name_lt(a@, b@),
{
    let x = chars_of(a.as_str());
    let y = chars_of(b.as_str());
    let mut i: usize = 0;
    assert(x@.skip(0) =~= x@ && y@.skip(0) =~= y@);
    while i < x.len() && i < y.len()
        invariant
            x@ == a@,
            y@ == b@,
            i <= x.len(),
            i <= y.len(),
            name_lt(a@, b@) == name_lt(x@.skip(i as int), y@.skip(i as int)),
        decreases x.len() - i,
    {
        if x[i] != y[i] {
            return (x[i] as u32) < (y[i] as u32);
        }
        proof {
            lemma_name_lt_skip(x@, y@, i as int);
        }
        i = i + 1;
    }
    i < y.len()
}

/// Whether `a` strictly goes before `b` under `k`.
pub fn goes_before(k: Sort, a: &Entry, b: &Entry) -> (r: bool)
    ensures
        r == precedes(k, a@, b@),
{
    match k {
        Sort::Name => name_before(&a.name, &b.name),
        Sort::Type => rank(a.ftype) > rank(b.ftype),
        Sort::Size => a.size > b.size,
        Sort::Date => a.created > b.created,
    }
}

/// Inserts `x` into `v` after every entry that `x` does not strictly precede.
pub fn insert_entry(v: &mut Vec<Entry>, x: Entry, k: Sort)
    ensures
        entry_views(final(v)@) == insert_sorted(entry_views(old(v)@), x@, k),
{
    let ghost s = entry_views(v@);
    let mut j: usize = v.len();
    assert(s.take(j as int) =~= s);
    while j > 0 && goes_before(k, &x, &v[j - 1])
        invariant
            j <= v.len(),
            s == entry_views(v@),
            insert_pos(s, x@, k) == insert_pos(s.take(j as int), x@, k),
        decreases j,
    {
        proof {
            assert(s.take(j as int).drop_last() =~= s.take(j - 1));
        }
        j = j - 1;
    }
    proof {
        if j > 0 {
            assert(s.take(j as int).last() == s[j - 1]);
        }
    }
    v.insert(j, x);
    assert(entry_views(v@) =~= s.insert(j as int, x@));
}

/// Sorts `v` stably under `k`.
pub fn sort_by_key(v: Vec<Entry>, k: Sort) -> (r: Vec<Entry>)
    ensures
        entry_views(r@) == sort_entries(entry_views(v@), k),
{
    let ghost s = entry_views(v@);
    let mut rest = v;
    let mut out: Vec<Entry> = Vec::new();
    let mut i: usize = 0;
    let n = rest.len();
    assert(s.take(0) =~= Seq::<EntryView>::empty());
    while rest.len() > 0
        invariant
            i + rest.len() == n,
            n == s.len(),
            entry_views(rest@) == s.skip(i as int),
            entry_views(out@) == sort_entries(s.take(i as int), k),
        decreases rest.len(),
    {
        let ghost before = rest@;
        let x = rest.remove(0);
        proof {
            assert(s.take(i + 1).drop_last() =~= s.take(i as int));
            assert(entry_views(before)[0] == s.skip(i as int)[0]);
            assert(x@ == s[i as int]);
            assert forall|j: int| 0 <= j < rest@.len() implies entry_views(rest@)[j] == s.skip(i + 1)[j] by {
                assert(rest@[j] == before[j + 1]);
                assert(entry_views(before)[j + 1] == s.skip(i as int)[j + 1]);
            }
        }
        insert_entry(&mut out, x, k);
        assert(entry_views(rest@) =~= s.skip(i + 1));
        i = i + 1;
    }
    assert(s.take(n as int) =~= s);
    out
}


/// What a metadata read gave for one filesystem object.
pub struct Meta {
    pub name: String,
    pub is_dir: bool,
    pub size: u64,
    pub created: u64,
}

/// The entry that describes an object with metadata `m`.
pub open spec fn meta_view(m: Meta) -> EntryView {
    EntryView {
        name: m.name@,
        ftype: if m.is_dir {
            FType::Folder
        } else {
            FType::File
        },
        size: m.size,
        created: m.created,
    }
}

impl Meta {
    pub fn into_entry(self) -> (r: Entry)
        ensures
            r@ == meta_view(self),
    {
        let ftype = if self.is_dir {
            FType::Folder
        } else {
            FType::File
        };
        Entry { name: self.name, ftype, size: self.size, created: self.created }
    }
}

/// What a metadata read of the requested target found.
pub enum Target {
    /// A regular file, described by its metadata.
    File(Meta),
    /// A directory whose immediate children were enumerated; `None` stands for
    /// a child whose metadata could not be read.
    Dir(Vec<Option<Meta>>),
    /// A directory that could not be opened.
    DirUnreadable,
    /// Nothing exists at the path, or its metadata could not be read.
    Missing,
    /// Neither a file nor a directory (a broken link, a special file).
    Other,
}

/// The response to a listing request.
pub struct Listing {
    pub success: bool,
    pub count: usize,
    pub kind: FType,
    pub entries: Vec<Entry>,
}

pub struct ListingView {
    pub success: bool,
    pub count: nat,
    pub kind: FType,
    pub entries: Seq<EntryView>,
}

impl View for Listing {
    type V = ListingView;

    open spec fn view(&self) -> ListingView {
        ListingView {
            success: self.success,
            count: self.count as nat,
            kind: self.kind,
            entries: entry_views(self.entries@),
        }
    }
}

pub open spec fn error_text() -> Seq<char> {
    seq!['E', 'r', 'r', 'o', 'r']
}

pub open spec fn folder_failure_text() -> Seq<char> {
    seq!['F', 'o', 'l', 'd', 'e', 'r', ' ', 'n', 'o', 't', ' ', 'w', 'o', 'r', 'k']
}

/// The entry that a child of a directory contributes.
pub open spec fn child_view(c: Option<Meta>) -> EntryView {
    match c {
        Some(m) => meta_view(m),
        None => error_view(error_text()),
    }
}

/// The entries of a listing of `t`, in enumeration order.
pub open spec fn raw_entries(t: Target) -> Seq<EntryView> {
    match t {
        Target::File(m) => seq![meta_view(m)],
        Target::Dir(children) => children@.map_values(|c: Option<Meta>| child_view(c)),
        Target::DirUnreadable => seq![error_view(folder_failure_text())],
        Target::Missing => seq![error_view(error_text())],
        Target::Other => seq![error_view(error_text())],
    }
}

/// The listing of `t` ordered by `k`.
pub open spec fn listing_of(t: Target, k: Sort) -> ListingView {
    let entries = sort_entries(raw_entries(t), k);
    ListingView {
        success: t is File || t is Dir,
        count: entries.len(),
        kind: match t {
            Target::File(_) => FType::File,
            Target::Dir(_) => FType::Folder,
            _ => FType::Error,
        },
        entries,
    }
}

/// Builds the listing of the target that a metadata read found, ordered by `k`.
pub fn dir_content(t: Target, k: Sort) -> (r: Listing)
    ensures
        r@ == listing_of(t, k),
        r.count == r.entries.len(),
        !r.success ==> r.entries.len() == 1 && r.entries[0].ftype is Error,
        t is Missing ==> !r.success,
{
    let ghost t0 = t;
    let (success, kind, content) = match t {
        Target::File(m) => {
            let mut v: Vec<Entry> = Vec::new();
            v.push(m.into_entry());
            assert(entry_views(v@) =~= raw_entries(t0));
            (true, FType::File, v)
        },
        Target::Dir(children) => {
            let ghost cs = children@;
            let n: usize = children.len();
            let mut v: Vec<Entry> = Vec::new();
            let mut rest = children;
            let mut i: usize = 0;
            while rest.len() > 0
                invariant
                    i + rest.len() == cs.len(),
                    n == cs.len(),
                    rest@ == cs.skip(i as int),
                    entry_views(v@) == cs.take(i as int).map_values(|c: Option<Meta>| child_view(c)),
                decreases rest.len(),
            {
                let c = rest.remove(0);
                let ghost prev = entry_views(v@);
                proof {
                    assert(c == cs[i as int]);
                }
                match c {
                    Some(m) => v.push(m.into_entry()),
                    None => {
                        proof {
                            reveal_strlit("Error");
                            assert("Error"@ =~= error_text());
                        }
                        v.push(Entry::error("Error"));
                    },
                }
                assert(rest@ =~= cs.skip(i + 1));
                assert(entry_views(v@) =~= prev.push(child_view(cs[i as int])));
                assert(cs.take(i + 1).map_values(|c: Option<Meta>| child_view(c)) =~= cs.take(
                    i as int,
                ).map_values(|c: Option<Meta>| child_view(c)).push(child_view(cs[i as int])));
                i = i + 1;
            }
            assert(cs.take(cs.len() as int) =~= cs);
            (true, FType::Folder, v)
        },
        Target::DirUnreadable => {
            let mut v: Vec<Entry> = Vec::new();
            proof {
                reveal_strlit("Folder not work");
                assert("Folder not work"@ =~= folder_failure_text());
            }
            v.push(Entry::error("Folder not work"));
            assert(entry_views(v@) =~= raw_entries(t0));
            (false, FType::Error, v)
        },
        Target::Missing => {
            let mut v: Vec<Entry> = Vec::new();
            proof {
                reveal_strlit("Error");
                assert("Error"@ =~= error_text());
            }
            v.push(Entry::error("Error"));
            assert(entry_views(v@) =~= raw_entries(t0));
            (false, FType::Error, v)
        },
        Target::Other => {
            let mut v: Vec<Entry> = Vec::new();
            proof {
                reveal_strlit("Error");
                assert("Error"@ =~= error_text());
            }
            v.push(Entry::error("Error"));
            assert(entry_views(v@) =~= raw_entries(t0));
            (false, FType::Error, v)
        },
    };
    let entries = sort_by_key(content, k);
    proof {
        lemma_sort_entries(raw_entries(t0), k);
        if !success {
            assert(entries@[0]@ == entry_views(entries@)[0]);
        }
    }
    Listing { success, count: entries.len(), kind, entries }
}

/// A listing by name has no entry whose name is lexicographically smaller than
/// the one before it; a listing by size has no entry larger than the one before it.
pub proof fn lemma_listing_order(t: Target, k: Sort)
    ensures
        k is Name ==> forall|i: int|
            0 <= i < listing_of(t, k).entries.len() - 1 ==> !name_lt(
                #[trigger] listing_of(t, k).entries[i + 1].name,
                listing_of(t, k).entries[i].name,
            ),
        k is Size ==> forall|i: int|
            0 <= i < listing_of(t, k).entries.len() - 1 ==> #[trigger] listing_of(t, k).entries[i
                + 1].size <= listing_of(t, k).entries[i].size,
{
    lemma_sort_entries(raw_entries(t), k);
    let e = listing_of(t, k).entries;
    assert(sorted_by(e, k));
    if k is Name {
        assert forall|i: int| 0 <= i < e.len() - 1 implies !name_lt(#[trigger] e[i + 1].name, e[i].name) by {
            assert(!precedes(k, e[i + 1], e[i]));
        }
    }
    if k is Size {
        assert forall|i: int| 0 <= i < e.len() - 1 implies #[trigger] e[i + 1].size <= e[i].size by {
            assert(!precedes(k, e[i + 1], e[i]));
        }
    }
}

/// A listing holds exactly the entries that the target gave, reordered.
pub proof fn lemma_listing_permutes(t: Target, k: Sort)
    ensures
        listing_of(t, k).entries.to_multiset() =~= raw_entries(t).to_multiset(),
{
    lemma_sort_entries(raw_entries(t), k);
}

proof fn lemma_no_errors(s: Seq<EntryView>)
    requires
        forall|i: int| 0 <= i < s.len() ==> !(#[trigger] s[i].ftype is Error),
    ensures
        error_count(s) == 0,
    decreases s.len(),
{
    if s.len() > 0 {
        lemma_no_errors(s.drop_last());
    }
}

proof fn lemma_single_error(s: Seq<EntryView>, j: int)
    requires
        0 <= j < s.len(),
        s[j].ftype is Error,
        forall|i: int| 0 <= i < s.len() && i != j ==> !(#[trigger] s[i].ftype is Error),
    ensures
        error_count(s) == 1,
    decreases s.len(),
{
    if j == s.len() - 1 {
        lemma_no_errors(s.drop_last());
    } else {
        lemma_single_error(s.drop_last(), j);
    }
}

/// A directory with one unreadable child among readable ones lists
/// successfully, with one entry per child and exactly one error entry.
pub proof fn lemma_one_unreadable_child(t: Target, k: Sort, j: int)
    requires
        t is Dir,
        0 <= j < t->Dir_0@.len(),
        t->Dir_0@[j] is None,
        forall|i: int| 0 <= i < t->Dir_0@.len() && i != j ==> (#[trigger] t->Dir_0@[i]) is Some,
    ensures
        listing_of(t, k).success,
        listing_of(t, k).count == t->Dir_0@.len(),
        listing_of(t, k).entries.len() == t->Dir_0@.len(),
        error_count(listing_of(t, k).entries) == 1,
{
    let raw = raw_entries(t);
    lemma_sort_entries(raw, k);
    assert forall|i: int| 0 <= i < raw.len() && i != j implies !(#[trigger] raw[i].ftype is Error) by {
        assert(raw[i] == child_view(t->Dir_0@[i]));
    }
    assert(raw[j] == child_view(t->Dir_0@[j]));
    lemma_single_error(raw, j);
}


/// The key that a request's sort selector names; a missing or unknown
/// selector means `Name`.
pub open spec fn sort_of_selector(sel: Option<Seq<char>>) -> Sort {
    match sel {
        Some(s) => if s == "Type"@ {
            Sort::Type
        } else if s == "Size"@ {
            Sort::Size
        } else if s == "Date"@ {
            Sort::Date
        } else {
            Sort::Name
        },
        None => Sort::Name,
    }
}

impl Sort {
    pub fn from_selector(sel: Option<&str>) -> (r: Sort)
        ensures
            r == sort_of_selector(
                match sel {
                    Some(s) => Some(s@),
                    None => None,
                },
            ),
    {
        match sel {
            None => Sort::Name,
            Some(s) => {
                let c = chars_of(s);
                if same_chars(&c, &chars_of("Type")) {
                    Sort::Type
                } else if same_chars(&c, &chars_of("Size")) {
                    Sort::Size
                } else if same_chars(&c, &chars_of("Date")) {
                    Sort::Date
                } else {
                    Sort::Name
                }
            },
        }
    }
}

} // verus!
