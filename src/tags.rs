use vstd::prelude::*;

use crate::item::{ItemView, Timestamp, VaultItem};
use crate::text::{
    chars_le, chars_le_exec, chars_lt, lemma_chars_le_antisymmetric, lemma_chars_le_total,
    lemma_chars_le_transitive, same_text,
};

verus! {

/// A tag list with `old` replaced by `new`, keeping the first occurrence of
/// each resulting tag and dropping later repeats.
pub open spec fn renamed_tags(tags: Seq<Seq<char>>, old: Seq<char>, new: Seq<char>) -> Seq<
    Seq<char>,
>
    decreases tags.len(),
{
    if tags.len() == 0 {
        Seq::empty()
    } else {
        let prev = renamed_tags(tags.drop_last(), old, new);
        let t = if tags.last() == old {
            new
        } else {
            tags.last()
        };
        if prev.contains(t) {
            prev
        } else {
            prev.push(t)
        }
    }
}

/// A tag list with every occurrence of `tag` left out.
pub open spec fn without_tag(tags: Seq<Seq<char>>, tag: Seq<char>) -> Seq<Seq<char>>
    decreases tags.len(),
{
    if tags.len() == 0 {
        Seq::empty()
    } else {
        let prev = without_tag(tags.drop_last(), tag);
        if tags.last() == tag {
            prev
        } else {
            prev.push(tags.last())
        }
    }
}

/// Renaming a tag to itself leaves a list without repeats as it is.
pub proof fn lemma_rename_to_itself(tags: Seq<Seq<char>>, tag: Seq<char>)
    requires
        tags.no_duplicates(),
    ensures
        renamed_tags(tags, tag, tag) == tags,
    decreases tags.len(),
{
    if tags.len() > 0 {
        let init = tags.drop_last();
        assert(init.no_duplicates());
        lemma_rename_to_itself(init, tag);
        if init.contains(tags.last()) {
            let k = choose|k: int| 0 <= k < init.len() && init[k] == tags.last();
            assert(tags[k] == tags[tags.len() - 1]);
        }
        assert(tags =~= init.push(tags.last()));
    }
}

/// Leaving out a tag twice is the same as leaving it out once.
pub proof fn lemma_remove_twice(tags: Seq<Seq<char>>, tag: Seq<char>)
    ensures
        without_tag(without_tag(tags, tag), tag) == without_tag(tags, tag),
    decreases tags.len(),
{
    if tags.len() > 0 {
        let init = tags.drop_last();
        lemma_remove_twice(init, tag);
        if tags.last() != tag {
            let w = without_tag(init, tag).push(tags.last());
            assert(w.drop_last() =~= without_tag(init, tag));
        }
    }
}

/// Whether `tags` holds `tag`.
fn holds_tag(tags: &Vec<String>, tag: &str) -> (r: bool)
    ensures
        r == tags.deep_view().contains(tag@),
{
    let mut i: usize = 0;
    while i < tags.len()
        invariant
            i <= tags@.len(),
            forall|k: int| 0 <= k < i ==> tags.deep_view()[k] != tag@,
        decreases tags@.len() - i,
    {
        if same_text(tags[i].as_str(), tag) {
            assert(tags.deep_view()[i as int] == tag@);
            return true;
        }
        i = i + 1;
    }
    false
}

fn same_tags(a: &Vec<String>, b: &Vec<String>) -> (r: bool)
    ensures
        r == (a.deep_view() == b.deep_view()),
{
    if a.len() != b.len() {
        assert(a.deep_view().len() != b.deep_view().len());
        return false;
    }
    let mut i: usize = 0;
    while i < a.len()
        invariant
            a@.len() == b@.len(),
            i <= a@.len(),
            forall|k: int| 0 <= k < i ==> a.deep_view()[k] == b.deep_view()[k],
        decreases a@.len() - i,
    {
        if !same_text(a[i].as_str(), b[i].as_str()) {
            assert(a.deep_view()[i as int] != b.deep_view()[i as int]);
            return false;
        }
        i = i + 1;
    }
    assert(a.deep_view() =~= b.deep_view());
    true
}

/// The tag list with `old_tag` renamed to `new_tag` and repeats dropped.
pub fn rename_tag_list(tags: &Vec<String>, old_tag: &str, new_tag: &str) -> (r: Vec<String>)
    ensures
        r.deep_view() == renamed_tags(tags.deep_view(), old_tag@, new_tag@),
{
    let mut out: Vec<String> = Vec::new();
    let mut i: usize = 0;
    while i < tags.len()
        invariant
            i <= tags@.len(),
            out.deep_view() == renamed_tags(tags.deep_view().subrange(0, i as int), old_tag@, new_tag@),
        decreases tags@.len() - i,
    {
        let ghost prefix = tags.deep_view().subrange(0, i + 1);
        assert(prefix.drop_last() =~= tags.deep_view().subrange(0, i as int));
        let t = if same_text(tags[i].as_str(), old_tag) {
            new_tag.to_owned()
        } else {
            tags[i].clone()
        };
        if !holds_tag(&out, t.as_str()) {
            out.push(t);
            assert(out.deep_view() =~= renamed_tags(prefix, old_tag@, new_tag@));
        }
        i = i + 1;
    }
    assert(tags.deep_view().subrange(0, i as int) =~= tags.deep_view());
    out
}

/// The tag list with every `tag` left out.
pub fn remove_tag_list(tags: &Vec<String>, tag: &str) -> (r: Vec<String>)
    ensures
        r.deep_view() == without_tag(tags.deep_view(), tag@),
{
    let mut out: Vec<String> = Vec::new();
    let mut i: usize = 0;
    while i < tags.len()
        invariant
            i <= tags@.len(),
            out.deep_view() == without_tag(tags.deep_view().subrange(0, i as int), tag@),
        decreases tags@.len() - i,
    {
        let ghost prefix = tags.deep_view().subrange(0, i + 1);
        assert(prefix.drop_last() =~= tags.deep_view().subrange(0, i as int));
        if !same_text(tags[i].as_str(), tag) {
            out.push(tags[i].clone());
            assert(out.deep_view() =~= without_tag(prefix, tag@));
        }
        i = i + 1;
    }
    assert(tags.deep_view().subrange(0, i as int) =~= tags.deep_view());
    out
}

/// `after` is `before` with its tags replaced by `tags`; when they differ
/// from the old ones, `updated_at` becomes `now`.
pub open spec fn retagged(before: ItemView, tags: Seq<Seq<char>>, now: Timestamp, after: ItemView) -> bool {
    &&& after.id == before.id
    &&& after.parent_id == before.parent_id
    &&& after.name == before.name
    &&& after.data_path == before.data_path
    &&& after.item_type == before.item_type
    &&& after.folder_type == before.folder_type
    &&& after.created_at == before.created_at
    &&& after.tags == tags
    &&& after.updated_at == if tags != before.tags {
        now
    } else {
        before.updated_at
    }
}

fn with_tags(item: VaultItem, tags: Vec<String>, now: Timestamp) -> (r: (VaultItem, bool))
    ensures
        retagged(item@, tags.deep_view(), now, r.0@),
        r.1 == (tags.deep_view() != item@.tags),
{
    let changed = !same_tags(&tags, &item.tags);
    let VaultItem {
        id,
        parent_id,
        name,
        data_path,
        item_type,
        folder_type,
        tags: _,
        created_at,
        updated_at,
    } = item;
    let updated_at = if changed {
        now
    } else {
        updated_at
    };
    (
        VaultItem {
            id,
            parent_id,
            name,
            data_path,
            item_type,
            folder_type,
            tags,
            created_at,
            updated_at,
        },
        changed,
    )
}

/// Renames `old_tag` to `new_tag` in every item. The flags say which items
/// changed; only those get `now` as their `updated_at`.
pub fn rename_tag_in_items(items: Vec<VaultItem>, old_tag: &str, new_tag: &str, now: Timestamp) -> (r:
    (Vec<VaultItem>, Vec<bool>))
    ensures
        r.0@.len() == items@.len(),
        r.1@.len() == items@.len(),
        forall|i: int|
            0 <= i < items@.len() ==> retagged(
                #[trigger] items@[i]@,
                renamed_tags(items@[i]@.tags, old_tag@, new_tag@),
                now,
                r.0@[i]@,
            ),
        forall|i: int|
            0 <= i < items@.len() ==> #[trigger] r.1@[i] == (renamed_tags(
                items@[i]@.tags,
                old_tag@,
                new_tag@,
            ) != items@[i]@.tags),
{
    let ghost given = items@;
    let mut rest = items;
    let mut out: Vec<VaultItem> = Vec::new();
    let mut flags: Vec<bool> = Vec::new();
    while rest.len() > 0
        invariant
            out@.len() == flags@.len(),
            out@.len() + rest@.len() == given.len(),
            rest@ == given.subrange(out@.len() as int, given.len() as int),
            forall|i: int|
                0 <= i < out@.len() ==> retagged(
                    #[trigger] given[i]@,
                    renamed_tags(given[i]@.tags, old_tag@, new_tag@),
                    now,
                    out@[i]@,
                ),
            forall|i: int|
                0 <= i < out@.len() ==> #[trigger] flags@[i] == (renamed_tags(
                    given[i]@.tags,
                    old_tag@,
                    new_tag@,
                ) != given[i]@.tags),
        decreases rest@.len(),
    {
        let item = rest.remove(0);
        let tags = rename_tag_list(&item.tags, old_tag, new_tag);
        let (next, changed) = with_tags(item, tags, now);
        out.push(next);
        flags.push(changed);
    }
    (out, flags)
}

/// Leaves `tag` out of every item. The flags say which items changed; only
/// those get `now` as their `updated_at`.
pub fn remove_tag_from_items(items: Vec<VaultItem>, tag: &str, now: Timestamp) -> (r: (
    Vec<VaultItem>,
    Vec<bool>,
))
    ensures
        r.0@.len() == items@.len(),
        r.1@.len() == items@.len(),
        forall|i: int|
            0 <= i < items@.len() ==> retagged(
                #[trigger] items@[i]@,
                without_tag(items@[i]@.tags, tag@),
                now,
                r.0@[i]@,
            ),
        forall|i: int|
            0 <= i < items@.len() ==> #[trigger] r.1@[i] == (without_tag(items@[i]@.tags, tag@)
                != items@[i]@.tags),
{
    let ghost given = items@;
    let mut rest = items;
    let mut out: Vec<VaultItem> = Vec::new();
    let mut flags: Vec<bool> = Vec::new();
    while rest.len() > 0
        invariant
            out@.len() == flags@.len(),
            out@.len() + rest@.len() == given.len(),
            rest@ == given.subrange(out@.len() as int, given.len() as int),
            forall|i: int|
                0 <= i < out@.len() ==> retagged(
                    #[trigger] given[i]@,
                    without_tag(given[i]@.tags, tag@),
                    now,
                    out@[i]@,
                ),
            forall|i: int|
                0 <= i < out@.len() ==> #[trigger] flags@[i] == (without_tag(
                    given[i]@.tags,
                    tag@,
                ) != given[i]@.tags),
        decreases rest@.len(),
    {
        let item = rest.remove(0);
        let tags = remove_tag_list(&item.tags, tag);
        let (next, changed) = with_tags(item, tags, now);
        out.push(next);
        flags.push(changed);
    }
    (out, flags)
}

/// Every tag of every item, in item order.
pub open spec fn all_tags(items: Seq<VaultItem>) -> Seq<Seq<char>>
    decreases items.len(),
{
    if items.len() == 0 {
        Seq::empty()
    } else {
        all_tags(items.drop_last()) + items.last()@.tags
    }
}

/// Strictly increasing under `chars_le`, hence free of repeats.
pub open spec fn strictly_sorted(s: Seq<Seq<char>>) -> bool {
    forall|i: int, j: int| 0 <= i < j < s.len() ==> chars_lt(#[trigger] s[i], #[trigger] s[j])
}

/// Inserts `tag` at its place in a strictly sorted list unless it is there.
fn insert_sorted_unique(out: &mut Vec<String>, tag: &String)
    requires
        strictly_sorted(old(out).deep_view()),
    ensures
        strictly_sorted(final(out).deep_view()),
        forall|t: Seq<char>|
            #[trigger] final(out).deep_view().contains(t) <==> (old(out).deep_view().contains(t) || t
                == tag@),
{
    let ghost s = out.deep_view();
    let key = crate::text::chars_of(tag.as_str());
    let mut p: usize = 0;
    while p < out.len() && !chars_le_exec(&key, &crate::text::chars_of(out[p].as_str()))
        invariant
            out.deep_view() == s,
            key@ == tag@,
            p <= s.len(),
            forall|k: int| 0 <= k < p ==> !chars_le(tag@, #[trigger] s[k]),
        decreases s.len() - p,
    {
        p = p + 1;
    }
    if p < out.len() && same_text(out[p].as_str(), tag.as_str()) {
        assert(s[p as int] == tag@);
        return;
    }
    proof {
        let t = s.insert(p as int, tag@);
        assert forall|i: int, j: int| 0 <= i < j < t.len() implies chars_lt(
            #[trigger] t[i],
            #[trigger] t[j],
        ) by {
            if i < p && j == p {
                lemma_chars_le_total(tag@, s[i]);
            } else if i == p && j > p {
                lemma_chars_le_total(tag@, s[p as int]);
                if j - 1 > p {
                    lemma_chars_le_transitive(tag@, s[p as int], s[j - 1]);
                    if tag@ == s[j - 1] {
                        lemma_chars_le_antisymmetric(s[p as int], s[j - 1]);
                    }
                }
            }
        }
    }
    out.insert(p, tag.clone());
    assert(out.deep_view() =~= s.insert(p as int, tag@));
    assert forall|t: Seq<char>| #[trigger] out.deep_view().contains(t) <==> (s.contains(t) || t
        == tag@) by {
        if s.contains(t) {
            let k = choose|k: int| 0 <= k < s.len() && s[k] == t;
            if k < p {
                assert(out.deep_view()[k] == t);
            } else {
                assert(out.deep_view()[k + 1] == t);
            }
        }
        if t == tag@ {
            assert(out.deep_view()[p as int] == t);
        }
    }
}

/// Every tag in use, once each, in ascending order (case-sensitive).
pub fn collect_all_tags(items: &Vec<VaultItem>) -> (r: Vec<String>)
    ensures
        strictly_sorted(r.deep_view()),
        forall|t: Seq<char>| #[trigger] r.deep_view().contains(t) <==> all_tags(items@).contains(t),
{
    let mut out: Vec<String> = Vec::new();
    let mut i: usize = 0;
    while i < items.len()
        invariant
            i <= items@.len(),
            strictly_sorted(out.deep_view()),
            forall|t: Seq<char>|
                #[trigger] out.deep_view().contains(t) <==> all_tags(
                    items@.subrange(0, i as int),
                ).contains(t),
        decreases items@.len() - i,
    {
        let ghost prev = all_tags(items@.subrange(0, i as int));
        let tags = &items[i].tags;
        assert(items@.subrange(0, i + 1).drop_last() =~= items@.subrange(0, i as int));
        let mut k: usize = 0;
        while k < tags.len()
            invariant
                k <= tags@.len(),
                i < items@.len(),
                tags.deep_view() == items@[i as int]@.tags,
                strictly_sorted(out.deep_view()),
                forall|t: Seq<char>|
                    #[trigger] out.deep_view().contains(t) <==> (prev + tags.deep_view().subrange(
                        0,
                        k as int,
                    )).contains(t),
            decreases tags@.len() - k,
        {
            let ghost before = prev + tags.deep_view().subrange(0, k as int);
            insert_sorted_unique(&mut out, &tags[k]);
            let ghost x = tags.deep_view()[k as int];
            assert(prev + tags.deep_view().subrange(0, k + 1) =~= before.push(x));
            assert forall|t: Seq<char>| #[trigger] before.push(x).contains(t) <==> (before.contains(t)
                || t == x) by {
                if before.contains(t) {
                    let j = choose|j: int| 0 <= j < before.len() && before[j] == t;
                    assert(before.push(x)[j] == t);
                }
                if t == x {
                    assert(before.push(x)[before.len() as int] == t);
                }
            }
            k = k + 1;
        }
        assert(tags.deep_view().subrange(0, k as int) =~= tags.deep_view());
        i = i + 1;
    }
    assert(items@.subrange(0, i as int) =~= items@);
    out
}

} // verus!
