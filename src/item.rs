use vstd::prelude::*;

use crate::error::{detail, Error, Result};
use crate::text::{
    chars_le, chars_le_exec, clean_url_for_sorting, has_prefix, chars_of, lemma_chars_le_total,
    lemma_chars_le_transitive, name_key, same_text, starts_with,
};

verus! {

broadcast use vstd::seq_lib::group_to_multiset_ensures;

/// An instant in UTC: whole seconds since the Unix epoch and the nanoseconds
/// past that second (beyond 999,999,999 only within a leap second).
#[derive(Debug, Clone, Copy, PartialEq, Eq)]
pub struct Timestamp {
    pub secs: i64,
    pub nanos: u32,
}

/// Chronological order.
pub open spec fn ts_le(a: Timestamp, b: Timestamp) -> bool {
    a.secs < b.secs || (a.secs == b.secs && a.nanos <= b.nanos)
}

impl Timestamp {
    pub fn le(&self, other: &Timestamp) -> (r: bool)
        ensures
            r == ts_le(*self, *other),
    {
        self.secs < other.secs || (self.secs == other.secs && self.nanos <= other.nanos)
    }
}

/// One entry of the catalogue.
#[derive(Debug, Clone)]
pub struct VaultItem {
    pub id: String,
    pub parent_id: Option<String>,
    pub name: String,
    pub data_path: String,
    pub item_type: String,
    pub folder_type: Option<String>,
    pub tags: Vec<String>,
    pub created_at: Timestamp,
    pub updated_at: Timestamp,
}

/// A `VaultItem` as values: its strings as characters.
pub struct ItemView {
    pub id: Seq<char>,
    pub parent_id: Option<Seq<char>>,
    pub name: Seq<char>,
    pub data_path: Seq<char>,
    pub item_type: Seq<char>,
    pub folder_type: Option<Seq<char>>,
    pub tags: Seq<Seq<char>>,
    pub created_at: Timestamp,
    pub updated_at: Timestamp,
}

pub open spec fn opt_view(o: Option<String>) -> Option<Seq<char>> {
    match o {
        Some(s) => Some(s@),
        None => None,
    }
}

impl View for VaultItem {
    type V = ItemView;

    open spec fn view(&self) -> ItemView {
        ItemView {
            id: self.id@,
            parent_id: opt_view(self.parent_id),
            name: self.name@,
            data_path: self.data_path@,
            item_type: self.item_type@,
            folder_type: opt_view(self.folder_type),
            tags: self.tags.deep_view(),
            created_at: self.created_at,
            updated_at: self.updated_at,
        }
    }
}

/// The `item_type` that marks a folder.
pub open spec fn folder_marker() -> Seq<char> {
    "folder"@
}

pub open spec fn is_folder(v: ItemView) -> bool {
    v.item_type == folder_marker()
}

impl VaultItem {
    pub fn is_folder(&self) -> (r: bool)
        ensures
            r == is_folder(self@),
    {
        same_text(self.item_type.as_str(), "folder")
    }
}

/// A new item that carries a payload stored under `data_path`. The name and
/// the content must not be empty, and the type cannot be the folder marker.
pub fn new_entry(
    id: String,
    parent_id: Option<String>,
    name: String,
    item_type: String,
    data_path: String,
    tags: Vec<String>,
    content: &[u8],
    now: Timestamp,
) -> (r: Result<VaultItem>)
    ensures
        r is Ok <==> name@.len() > 0 && content@.len() > 0 && data_path@.len() > 0 && item_type@
            != folder_marker(),
        r matches Ok(it) ==> it@ == (ItemView {
            id: id@,
            parent_id: opt_view(parent_id),
            name: name@,
            data_path: data_path@,
            item_type: item_type@,
            folder_type: None,
            tags: tags.deep_view(),
            created_at: now,
            updated_at: now,
        }),
        r matches Err(e) ==> e is InvalidInput,
{
    if name.as_str().is_empty() {
        return Err(Error::InvalidInput(detail("name is empty")));
    }
    if content.len() == 0 {
        return Err(Error::InvalidInput(detail("content is empty")));
    }
    if data_path.as_str().is_empty() {
        return Err(Error::InvalidInput(detail("payload name is empty")));
    }
    if same_text(item_type.as_str(), "folder") {
        return Err(Error::InvalidInput(detail("an item with content cannot be a folder")));
    }
    Ok(
        VaultItem {
            id,
            parent_id,
            name,
            data_path,
            item_type,
            folder_type: None,
            tags,
            created_at: now,
            updated_at: now,
        },
    )
}

/// A new folder: no payload, no tags. The name must not be empty.
pub fn new_folder(
    id: String,
    parent_id: Option<String>,
    name: String,
    folder_type: Option<String>,
    now: Timestamp,
) -> (r: Result<VaultItem>)
    ensures
        r is Ok <==> name@.len() > 0,
        r matches Ok(it) ==> it@ == (ItemView {
            id: id@,
            parent_id: opt_view(parent_id),
            name: name@,
            data_path: Seq::empty(),
            item_type: folder_marker(),
            folder_type: opt_view(folder_type),
            tags: Seq::empty(),
            created_at: now,
            updated_at: now,
        }),
        r matches Err(e) ==> e is InvalidInput,
{
    if name.as_str().is_empty() {
        return Err(Error::InvalidInput(detail("name is empty")));
    }
    let tags: Vec<String> = Vec::new();
    let item = VaultItem {
        id,
        parent_id,
        name,
        data_path: String::new(),
        item_type: detail("folder"),
        folder_type,
        tags,
        created_at: now,
        updated_at: now,
    };
    assert(item@.tags =~= Seq::<Seq<char>>::empty());
    Ok(item)
}

/// The orders a listing can be asked for.
#[derive(Debug, Clone, Copy, PartialEq, Eq)]
pub enum SortOrder {
    CreatedAtDesc,
    CreatedAtAsc,
    NameAsc,
    NameDesc,
    UpdatedAtDesc,
    UpdatedAtAsc,
}

impl Default for SortOrder {
    fn default() -> (r: Self)
        ensures
            r == SortOrder::CreatedAtDesc,
    {
        SortOrder::CreatedAtDesc
    }
}

impl SortOrder {
    /// The SQL clause naming the same order on the catalogue's columns.
    pub fn to_sql(&self) -> (r: &'static str)
        ensures
            r@ == match self {
                SortOrder::CreatedAtDesc => "ORDER BY created_at DESC"@,
                SortOrder::CreatedAtAsc => "ORDER BY created_at ASC"@,
                SortOrder::NameAsc => "ORDER BY name ASC"@,
                SortOrder::NameDesc => "ORDER BY name DESC"@,
                SortOrder::UpdatedAtDesc => "ORDER BY updated_at DESC"@,
                SortOrder::UpdatedAtAsc => "ORDER BY updated_at ASC"@,
            },
    {
        match self {
            SortOrder::CreatedAtDesc => "ORDER BY created_at DESC",
            SortOrder::CreatedAtAsc => "ORDER BY created_at ASC",
            SortOrder::NameAsc => "ORDER BY name ASC",
            SortOrder::NameDesc => "ORDER BY name DESC",
            SortOrder::UpdatedAtDesc => "ORDER BY updated_at DESC",
            SortOrder::UpdatedAtAsc => "ORDER BY updated_at ASC",
        }
    }
}

/// Settings for counting failed unlock attempts.
#[derive(Debug, Clone, Copy, PartialEq, Eq)]
pub struct BruteForceConfig {
    pub enabled: bool,
    pub max_attempts: u32,
    pub lockout_duration_minutes: u32,
}

impl Default for BruteForceConfig {
    fn default() -> (r: Self)
        ensures
            r.enabled,
            r.max_attempts == 5,
            r.lockout_duration_minutes == 5,
    {
        BruteForceConfig { enabled: true, max_attempts: 5, lockout_duration_minutes: 5 }
    }
}

/// `a` may come before `b` within one partition under `order`.
pub open spec fn key_le(a: ItemView, b: ItemView, order: SortOrder) -> bool {
    match order {
        SortOrder::CreatedAtDesc => ts_le(b.created_at, a.created_at),
        SortOrder::CreatedAtAsc => ts_le(a.created_at, b.created_at),
        SortOrder::NameAsc => chars_le(name_key(a.name), name_key(b.name)),
        SortOrder::NameDesc => chars_le(name_key(b.name), name_key(a.name)),
        SortOrder::UpdatedAtDesc => ts_le(b.updated_at, a.updated_at),
        SortOrder::UpdatedAtAsc => ts_le(a.updated_at, b.updated_at),
    }
}

/// `a` may be listed before `b`: folders first, then by `order`.
pub open spec fn listed_before(a: ItemView, b: ItemView, order: SortOrder) -> bool {
    (is_folder(a) && !is_folder(b)) || (is_folder(a) == is_folder(b) && key_le(a, b, order))
}

/// Every item may be listed before every later one.
pub open spec fn listing_sorted(s: Seq<VaultItem>, order: SortOrder) -> bool {
    forall|i: int, j: int| 0 <= i < j < s.len() ==> listed_before(#[trigger] s[i]@, #[trigger] s[j]@, order)
}

/// The order a listing uses: the one asked for, newest first by default.
pub open spec fn requested_order(order_by: Option<SortOrder>) -> SortOrder {
    match order_by {
        Some(o) => o,
        None => SortOrder::CreatedAtDesc,
    }
}

/// `idx` places each listed item at its position in `given`, and any two
/// items that tie under `order` keep the order they had there.
pub open spec fn stable_from(
    listed: Seq<VaultItem>,
    given: Seq<VaultItem>,
    idx: Seq<int>,
    order: SortOrder,
) -> bool {
    &&& idx.len() == listed.len()
    &&& forall|k: int|
        0 <= k < idx.len() ==> 0 <= #[trigger] idx[k] < given.len() && listed[k] == given[idx[k]]
    &&& forall|k: int, l: int|
        0 <= k < l < listed.len() && listed_before(#[trigger] listed[l]@, #[trigger] listed[k]@, order)
            ==> idx[k] < idx[l]
}

/// An item passes a type filter when its `item_type` starts with it, or when
/// it is a folder whose `folder_type` is exactly the filter.
pub open spec fn passes_filter(v: ItemView, filter: Option<Seq<char>>) -> bool {
    match filter {
        None => true,
        Some(f) => starts_with(v.item_type, f) || (is_folder(v) && v.folder_type == Some(f)),
    }
}

pub proof fn lemma_listed_before_total(a: ItemView, b: ItemView, order: SortOrder)
    ensures
        listed_before(a, b, order) || listed_before(b, a, order),
{
    lemma_chars_le_total(name_key(a.name), name_key(b.name));
}

pub proof fn lemma_listed_before_transitive(a: ItemView, b: ItemView, c: ItemView, order: SortOrder)
    requires
        listed_before(a, b, order),
        listed_before(b, c, order),
    ensures
        listed_before(a, c, order),
{
    if is_folder(a) == is_folder(b) && is_folder(b) == is_folder(c) {
        match order {
            SortOrder::NameAsc => lemma_chars_le_transitive(
                name_key(a.name),
                name_key(b.name),
                name_key(c.name),
            ),
            SortOrder::NameDesc => lemma_chars_le_transitive(
                name_key(c.name),
                name_key(b.name),
                name_key(a.name),
            ),
            _ => {},
        }
    }
}

/// Whether `item` passes `filter`.
pub fn matches_filter(item: &VaultItem, filter: &Option<String>) -> (r: bool)
    ensures
        r == passes_filter(item@, opt_view(*filter)),
{
    match filter {
        None => true,
        Some(f) => {
            if has_prefix(&chars_of(item.item_type.as_str()), &chars_of(f.as_str())) {
                true
            } else if item.is_folder() {
                match &item.folder_type {
                    Some(ft) => same_text(ft.as_str(), f.as_str()),
                    None => false,
                }
            } else {
                false
            }
        },
    }
}

/// Decides `listed_before` from precomputed folder flags and name keys.
fn listed_before_exec(
    a_folder: bool,
    a_key: &Vec<char>,
    a: &VaultItem,
    b_folder: bool,
    b_key: &Vec<char>,
    b: &VaultItem,
    order: SortOrder,
) -> (r: bool)
    requires
        a_folder == is_folder(a@),
        b_folder == is_folder(b@),
        a_key@ == name_key(a.name@),
        b_key@ == name_key(b.name@),
    ensures
        r == listed_before(a@, b@, order),
{
    if a_folder != b_folder {
        return a_folder;
    }
    match order {
        SortOrder::CreatedAtDesc => b.created_at.le(&a.created_at),
        SortOrder::CreatedAtAsc => a.created_at.le(&b.created_at),
        SortOrder::NameAsc => chars_le_exec(a_key, b_key),
        SortOrder::NameDesc => chars_le_exec(b_key, a_key),
        SortOrder::UpdatedAtDesc => b.updated_at.le(&a.updated_at),
        SortOrder::UpdatedAtAsc => a.updated_at.le(&b.updated_at),
    }
}

/// Keeps the items that pass `item_type_filter` and lists them folders first,
/// then in `order_by` (newest first when none is given). Items that tie keep
/// the order they were given in.
pub fn arrange_listing(
    items: Vec<VaultItem>,
    item_type_filter: Option<String>,
    order_by: Option<SortOrder>,
) -> (r: Vec<VaultItem>)
    ensures
        listing_sorted(r@, requested_order(order_by)),
        exists|idx: Seq<int>|
            #[trigger] stable_from(r@, items@, idx, requested_order(order_by)),
        forall|x: VaultItem|
            #[trigger] r@.to_multiset().count(x) == if passes_filter(
                x@,
                opt_view(item_type_filter),
            ) {
                items@.to_multiset().count(x)
            } else {
                0
            },
{
    let order = match order_by {
        Some(o) => o,
        None => SortOrder::CreatedAtDesc,
    };
    let ghost f = opt_view(item_type_filter);
    let ghost given = items@;
    let mut rest = items;
    let mut out: Vec<VaultItem> = Vec::new();
    let mut folders: Vec<bool> = Vec::new();
    let mut keys: Vec<Vec<char>> = Vec::new();
    let ghost mut idx: Seq<int> = Seq::empty();
    while rest.len() > 0
        invariant
            rest@.len() <= given.len(),
            rest@ == given.subrange(0, rest@.len() as int),
            idx.len() == out@.len(),
            forall|k: int|
                0 <= k < idx.len() ==> rest@.len() <= #[trigger] idx[k] < given.len() && out@[k]
                    == given[idx[k]],
            forall|k: int, l: int|
                0 <= k < l < out@.len() && listed_before(#[trigger] out@[l]@, #[trigger] out@[k]@, order)
                    ==> idx[k] < idx[l],
            f == opt_view(item_type_filter),
            order == requested_order(order_by),
            out@.len() == folders@.len(),
            out@.len() == keys@.len(),
            forall|k: int| 0 <= k < out@.len() ==> #[trigger] folders@[k] == is_folder(out@[k]@),
            forall|k: int| 0 <= k < out@.len() ==> #[trigger] keys@[k]@ == name_key(out@[k].name@),
            listing_sorted(out@, order),
            forall|x: VaultItem|
                #[trigger] out@.to_multiset().count(x) + (if passes_filter(x@, f) {
                    rest@.to_multiset().count(x)
                } else {
                    0
                }) == if passes_filter(x@, f) {
                    given.to_multiset().count(x)
                } else {
                    0
                },
        decreases rest@.len(),
    {
        let ghost before = rest@;
        let x = rest.pop().unwrap();
        proof {
            assert(before =~= rest@.push(x));
            assert(before[rest@.len() as int] == given[rest@.len() as int]);
            assert(rest@ =~= given.subrange(0, rest@.len() as int));
            assert(before.to_multiset() =~= rest@.to_multiset().insert(x));
        }
        let ghost out_before = out@;
        let keep = matches_filter(&x, &item_type_filter);
        if !keep {
            assert forall|y: VaultItem|
                #[trigger] out@.to_multiset().count(y) + (if passes_filter(y@, f) {
                    rest@.to_multiset().count(y)
                } else {
                    0
                }) == if passes_filter(y@, f) {
                    given.to_multiset().count(y)
                } else {
                    0
                } by {
                assert(before.to_multiset().count(y) == rest@.to_multiset().count(y) + if y == x {
                    1int
                } else {
                    0int
                });
                assert(out_before.to_multiset().count(y) + (if passes_filter(y@, f) {
                    before.to_multiset().count(y)
                } else {
                    0
                }) == if passes_filter(y@, f) {
                    given.to_multiset().count(y)
                } else {
                    0
                });
            }
            continue;
        }
        let x_folder = x.is_folder();
        let x_key = clean_url_for_sorting(x.name.as_str());
        let mut p: usize = 0;
        while p < out.len() && !listed_before_exec(
            x_folder,
            &x_key,
            &x,
            folders[p],
            &keys[p],
            &out[p],
            order,
        )
            invariant
                out@.len() == folders@.len(),
                out@.len() == keys@.len(),
                forall|k: int| 0 <= k < out@.len() ==> #[trigger] folders@[k] == is_folder(out@[k]@),
                forall|k: int| 0 <= k < out@.len() ==> #[trigger] keys@[k]@ == name_key(out@[k].name@),
                x_folder == is_folder(x@),
                x_key@ == name_key(x.name@),
                p <= out@.len(),
                forall|k: int| 0 <= k < p ==> !listed_before(x@, #[trigger] out@[k]@, order),
            decreases out@.len() - p,
        {
            p = p + 1;
        }
        proof {
            let s = out@;
            let t = s.insert(p as int, x);
            assert forall|i: int, j: int| 0 <= i < j < t.len() implies listed_before(
                #[trigger] t[i]@,
                #[trigger] t[j]@,
                order,
            ) by {
                if i < p && j == p {
                    lemma_listed_before_total(x@, s[i]@, order);
                } else if i < p && j > p {
                } else if i == p && j > p {
                    if p < s.len() {
                        assert(listed_before(x@, s[p as int]@, order));
                        if j - 1 > p {
                            lemma_listed_before_transitive(x@, s[p as int]@, s[j - 1]@, order);
                        }
                    }
                } else {
                }
            }
        }
        let ghost xv = x;
        let ghost at = rest@.len() as int;
        proof {
            let s = out@;
            let t = s.insert(p as int, x);
            let nidx = idx.insert(p as int, at);
            assert forall|k: int, l: int|
                0 <= k < l < t.len() && listed_before(#[trigger] t[l]@, #[trigger] t[k]@, order)
                    implies nidx[k] < nidx[l] by {
                if k < p && l > p {
                    assert(t[k] == s[k] && t[l] == s[l - 1]);
                    assert(nidx[k] == idx[k] && nidx[l] == idx[l - 1]);
                } else if k > p {
                    assert(t[k] == s[k - 1] && t[l] == s[l - 1]);
                    assert(nidx[k] == idx[k - 1] && nidx[l] == idx[l - 1]);
                } else if l < p {
                    assert(t[k] == s[k] && t[l] == s[l]);
                }
            }
            idx = nidx;
        }
        out.insert(p, x);
        folders.insert(p, x_folder);
        keys.insert(p, x_key);
        proof {
            assert(out@.to_multiset() =~= out_before.to_multiset().insert(xv));
            assert forall|y: VaultItem|
                #[trigger] out@.to_multiset().count(y) + (if passes_filter(y@, f) {
                    rest@.to_multiset().count(y)
                } else {
                    0
                }) == if passes_filter(y@, f) {
                    given.to_multiset().count(y)
                } else {
                    0
                } by {
                assert(before.to_multiset().count(y) == rest@.to_multiset().count(y) + if y == xv {
                    1int
                } else {
                    0int
                });
                assert(out_before.to_multiset().count(y) + (if passes_filter(y@, f) {
                    before.to_multiset().count(y)
                } else {
                    0
                }) == if passes_filter(y@, f) {
                    given.to_multiset().count(y)
                } else {
                    0
                });
            }
        }
    }
    proof {
        assert(rest@.to_multiset() =~= vstd::multiset::Multiset::empty());
        assert(stable_from(out@, given, idx, order));
    }
    out
}

} // verus!
