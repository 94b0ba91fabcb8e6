//! The catalog: the listed descriptors, ordered by name without regard to case.
use vstd::prelude::*;

use crate::descriptor::{
    app_view, catalog_entry, catalog_entry_spec, is_complete, opt_app_view, AppView,
};
use crate::model::AppInfo;
use crate::text::chars_of;

verus! {

broadcast use vstd::seq_lib::group_to_multiset_ensures;

/// What `str::to_lowercase` makes of a string.
pub uninterp spec fn lower_of(s: Seq<char>) -> Seq<char>;

/// Relies on `str::to_lowercase`: the lowercase form depends on the characters alone.
#[verifier::external_body]
pub(crate) fn lowercase(s: &str) -> (r: String)
    ensures
        r@ == lower_of(s@),
{
    s.to_lowercase()
}

/// The order in which `str` compares: character by character, by code point, a prefix
/// before any longer string.
pub open spec fn lex_le(a: Seq<char>, b: Seq<char>) -> bool
    decreases a.len(),
{
    if a.len() == 0 {
        true
    } else if b.len() == 0 {
        false
    } else if a[0] != b[0] {
        (a[0] as u32) <= (b[0] as u32)
    } else {
        lex_le(a.skip(1), b.skip(1))
    }
}

/// The key by which the catalog is ordered.
pub open spec fn sort_key(app: AppInfo) -> Seq<char> {
    lower_of(app.name@)
}

/// True of a sequence in which each record's lowercase name is at most the next one's.
pub open spec fn sorted_by_name(apps: Seq<AppInfo>) -> bool {
    forall|k: int|
        0 <= k < apps.len() - 1 ==> lex_le(sort_key(#[trigger] apps[k]), sort_key(apps[k + 1]))
}

/// True when `output` is `input` rearranged by `origin` (the position in `input` that
/// each output record came from), with records of equal key in their input order.
pub open spec fn stable_arrangement(input: Seq<AppInfo>, output: Seq<AppInfo>, origin: Seq<int>) -> bool {
    &&& origin.len() == output.len()
    &&& output.len() == input.len()
    &&& forall|k: int|
        0 <= k < output.len() ==> 0 <= #[trigger] origin[k] < input.len() && output[k] == input[origin[k]]
    &&& forall|k1: int, k2: int|
        0 <= k1 < k2 < output.len() ==> #[trigger] origin[k1] != #[trigger] origin[k2]
    &&& forall|k1: int, k2: int|
        0 <= k1 < k2 < output.len() && sort_key(#[trigger] output[k1]) == sort_key(
            #[trigger] output[k2],
        ) ==> origin[k1] < origin[k2]
}

/// True when `out` is made of distinct records of `input`, `origin` telling where each
/// came from, the first `out.len()` of `input` all placed, equal keys in input order.
pub open spec fn placed_in_order(input: Seq<AppInfo>, out: Seq<AppInfo>, origin: Seq<int>) -> bool {
    &&& origin.len() == out.len()
    &&& out.len() <= input.len()
    &&& forall|k: int|
        0 <= k < out.len() ==> 0 <= #[trigger] origin[k] < out.len() && out[k] == input[origin[k]]
    &&& forall|k1: int, k2: int|
        0 <= k1 < k2 < out.len() ==> #[trigger] origin[k1] != #[trigger] origin[k2]
    &&& forall|k1: int, k2: int|
        0 <= k1 < k2 < out.len() && sort_key(#[trigger] out[k1]) == sort_key(#[trigger] out[k2])
            ==> origin[k1] < origin[k2]
}

/// Placing the next record of `input` before every placed record of greater key, and
/// after all others, keeps the placed records in input order among equal keys.
proof fn lemma_insert_keeps_order(
    input: Seq<AppInfo>,
    out: Seq<AppInfo>,
    origin: Seq<int>,
    pos: int,
    app: AppInfo,
)
    requires
        placed_in_order(input, out, origin),
        out.len() < input.len(),
        app == input[out.len() as int],
        0 <= pos <= out.len(),
        forall|j: int| pos <= j < out.len() ==> !lex_le(sort_key(#[trigger] out[j]), sort_key(app)),
    ensures
        placed_in_order(input, out.insert(pos, app), origin.insert(pos, out.len() as int)),
{
    let taken = out.len() as int;
    let o2 = out.insert(pos, app);
    let g2 = origin.insert(pos, taken);
    lemma_lex_reflexive(sort_key(app));
    assert forall|k: int| 0 <= k < o2.len() implies 0 <= #[trigger] g2[k] < o2.len() && o2[k]
        == input[g2[k]] by {
        if k > pos {
            assert(g2[k] == origin[k - 1]);
            assert(o2[k] == out[k - 1]);
        } else if k < pos {
            assert(g2[k] == origin[k]);
            assert(o2[k] == out[k]);
        }
    }
    assert forall|k1: int, k2: int| 0 <= k1 < k2 < o2.len() implies #[trigger] g2[k1]
        != #[trigger] g2[k2] by {
        if k1 != pos && k2 != pos {
            let a = if k1 > pos { k1 - 1 } else { k1 };
            let b = if k2 > pos { k2 - 1 } else { k2 };
            assert(g2[k1] == origin[a]);
            assert(g2[k2] == origin[b]);
        } else if k1 == pos {
            assert(g2[k2] == origin[k2 - 1]);
        } else if k1 > pos {
            assert(g2[k1] == origin[k1 - 1]);
        } else {
            assert(g2[k1] == origin[k1]);
        }
    }
    assert forall|k1: int, k2: int|
        0 <= k1 < k2 < o2.len() && sort_key(#[trigger] o2[k1]) == sort_key(#[trigger] o2[k2])
            implies g2[k1] < g2[k2] by {
        if k1 != pos && k2 != pos {
            let a = if k1 > pos { k1 - 1 } else { k1 };
            let b = if k2 > pos { k2 - 1 } else { k2 };
            assert(g2[k1] == origin[a]);
            assert(g2[k2] == origin[b]);
            assert(o2[k1] == out[a]);
            assert(o2[k2] == out[b]);
        } else if k1 == pos {
            assert(o2[k2] == out[k2 - 1]);
        } else {
            assert(g2[k1] == origin[k1]);
        }
    }
}

/// Every string is at most itself.
pub proof fn lemma_lex_reflexive(a: Seq<char>)
    ensures
        lex_le(a, a),
    decreases a.len(),
{
    if a.len() > 0 {
        lemma_lex_reflexive(a.skip(1));
    }
}

/// Any two strings are ordered one way or the other.
pub proof fn lemma_lex_total(a: Seq<char>, b: Seq<char>)
    ensures
        lex_le(a, b) || lex_le(b, a),
    decreases a.len(),
{
    if a.len() > 0 && b.len() > 0 && a[0] == b[0] {
        lemma_lex_total(a.skip(1), b.skip(1));
    }
}

/// Compares two keys in the order of `lex_le`.
fn key_le(a: &Vec<char>, b: &Vec<char>) -> (r: bool)
    ensures
        r == lex_le(a@, b@),
{
    let mut i: usize = 0;
    assert(a@.skip(0) =~= a@);
    assert(b@.skip(0) =~= b@);
    while i < a.len() && i < b.len() && a[i] == b[i]
        invariant
            i <= a.len(),
            i <= b.len(),
            lex_le(a@, b@) == lex_le(a@.skip(i as int), b@.skip(i as int)),
        decreases a.len() - i,
    {
        assert(a@.skip(i as int).skip(1) =~= a@.skip(i + 1));
        assert(b@.skip(i as int).skip(1) =~= b@.skip(i + 1));
        i = i + 1;
    }
    if i == a.len() {
        true
    } else if i == b.len() {
        false
    } else {
        (a[i] as u32) <= (b[i] as u32)
    }
}

/// Orders `apps` by lowercase name. Records with equal keys keep their relative order:
/// each record goes in after every one already placed whose key is not greater.
pub fn sort_by_name(apps: Vec<AppInfo>) -> (r: Vec<AppInfo>)
    ensures
        sorted_by_name(r@),
        r@.to_multiset() == apps@.to_multiset(),
        exists|origin: Seq<int>| stable_arrangement(apps@, r@, origin),
{
    let ghost input = apps@;
    let ghost mut origin: Seq<int> = Seq::empty();
    let mut rest = apps;
    let mut out: Vec<AppInfo> = Vec::new();
    let mut keys: Vec<Vec<char>> = Vec::new();
    while rest.len() > 0
        invariant
            out@.to_multiset().add(rest@.to_multiset()) == apps@.to_multiset(),
            keys@.len() == out@.len(),
            forall|j: int| 0 <= j < keys@.len() ==> (#[trigger] keys@[j])@ == sort_key(out@[j]),
            sorted_by_name(out@),
            rest@ == input.skip(input.len() - rest@.len()),
            out@.len() + rest@.len() == input.len(),
            placed_in_order(input, out@, origin),
        decreases rest.len(),
    {
        let ghost taken = out@.len() as int;
        let ghost origin_before = origin;
        let ghost rest_before = rest@;
        let ghost out_before = out@;
        let ghost keys_before = keys@;
        let app = rest.remove(0);
        let key = chars_of(lowercase(app.name.as_str()).as_str());
        let mut pos = out.len();
        while pos > 0 && !key_le(&keys[pos - 1], &key)
            invariant
                pos <= out.len(),
                keys@.len() == out@.len(),
                forall|j: int| pos <= j < out@.len() ==> !lex_le((#[trigger] keys@[j])@, key@),
            decreases pos,
        {
            pos = pos - 1;
        }
        proof {
            if pos > 0 {
                assert(lex_le(keys@[pos - 1]@, key@));
            }
            if pos < out.len() {
                lemma_lex_total(keys@[pos as int]@, key@);
            }
            assert(rest_before[0] == input[taken]);
            origin = origin.insert(pos as int, taken);
        }
        let ghost key_view = key@;
        out.insert(pos, app);
        keys.insert(pos, key);
        proof {
            assert(keys@[pos as int]@ == key_view);
            assert(out@.remove(pos as int) =~= out_before);
            assert(out@[pos as int] == app);
            assert(out@.to_multiset() =~= out_before.to_multiset().insert(app));
            assert(rest_before.remove(0) =~= rest@);
            assert forall|j: int| 0 <= j < keys@.len() implies (#[trigger] keys@[j])@ == sort_key(
                out@[j],
            ) by {
                if j > pos {
                    assert(keys@[j] == keys_before[j - 1]);
                    assert(out@[j] == out_before[j - 1]);
                } else if j < pos {
                    assert(keys@[j] == keys_before[j]);
                    assert(out@[j] == out_before[j]);
                }
            }
            assert forall|j: int| pos <= j < out_before.len() implies !lex_le(
                sort_key(#[trigger] out_before[j]),
                key_view,
            ) by {
                assert(keys_before[j]@ == sort_key(out_before[j]));
            }
            lemma_insert_keeps_order(input, out_before, origin_before, pos as int, app);
            assert forall|k: int| 0 <= k < out@.len() - 1 implies lex_le(
                sort_key(#[trigger] out@[k]),
                sort_key(out@[k + 1]),
            ) by {
                assert(keys@[k]@ == sort_key(out@[k]));
                assert(keys@[k + 1]@ == sort_key(out@[k + 1]));
                if k + 1 < pos {
                    assert(out@[k] == out_before[k]);
                    assert(out@[k + 1] == out_before[k + 1]);
                } else if k > pos {
                    assert(out@[k] == out_before[k - 1]);
                    assert(out@[k + 1] == out_before[k]);
                }
            }
        }
    }
    assert(stable_arrangement(input, out@, origin));
    out
}

/// The records that are present, in their order.
pub open spec fn present(records: Seq<Option<AppInfo>>) -> Seq<AppInfo>
    decreases records.len(),
{
    if records.len() == 0 {
        Seq::empty()
    } else {
        let earlier = present(records.drop_last());
        match records.last() {
            Some(app) => earlier.push(app),
            None => earlier,
        }
    }
}

/// Each present record stands in `records`, and there are no more of them than entries.
pub proof fn lemma_present_from(records: Seq<Option<AppInfo>>)
    ensures
        present(records).len() <= records.len(),
        forall|k: int|
            0 <= k < present(records).len() ==> exists|j: int|
                0 <= j < records.len() && #[trigger] records[j] == Some(
                    #[trigger] present(records)[k],
                ),
    decreases records.len(),
{
    if records.len() > 0 {
        let init = records.drop_last();
        lemma_present_from(init);
        assert forall|k: int| 0 <= k < present(records).len() implies exists|j: int|
            0 <= j < records.len() && #[trigger] records[j] == Some(
                #[trigger] present(records)[k],
            ) by {
            if k < present(init).len() {
                let j = choose|j: int|
                    0 <= j < init.len() && #[trigger] init[j] == Some(present(init)[k]);
                assert(records[j] == init[j]);
            } else {
                assert(records[records.len() - 1] == Some(present(records)[k]));
            }
        }
    }
}

/// Makes the catalog out of one entry per descriptor, in the order of discovery: the
/// records that are present, ordered by lowercase name, equal names in discovery order.
pub fn catalog_from_records(records: Vec<Option<AppInfo>>) -> (r: Vec<AppInfo>)
    ensures
        sorted_by_name(r@),
        exists|origin: Seq<int>| stable_arrangement(present(records@), r@, origin),
{
    let ghost input = records@;
    let mut rest = records;
    let mut found: Vec<AppInfo> = Vec::new();
    assert(input.subrange(0, 0) =~= Seq::<Option<AppInfo>>::empty());
    assert(input.skip(0) =~= input);
    while rest.len() > 0
        invariant
            rest@.len() <= input.len(),
            rest@ == input.skip(input.len() - rest@.len()),
            found@ == present(input.subrange(0, input.len() - rest@.len())),
        decreases rest.len(),
    {
        let ghost done = input.len() - rest@.len();
        let ghost rest_before = rest@;
        let entry = rest.remove(0);
        assert(rest_before[0] == input[done]);
        assert(rest_before.remove(0) =~= input.skip(done + 1));
        assert(input.subrange(0, done + 1).drop_last() =~= input.subrange(0, done));
        match entry {
            Some(app) => found.push(app),
            None => {},
        }
    }
    assert(input.subrange(0, input.len() as int) =~= input);
    sort_by_name(found)
}

/// The records, as plain values, that are present, in their order.
pub open spec fn present_views(entries: Seq<Option<AppView>>) -> Seq<AppView>
    decreases entries.len(),
{
    if entries.len() == 0 {
        Seq::empty()
    } else {
        let earlier = present_views(entries.drop_last());
        match entries.last() {
            Some(v) => earlier.push(v),
            None => earlier,
        }
    }
}

/// The records, as plain values, that the catalog lists for `files`, in discovery order.
pub open spec fn listed_views(files: Seq<(String, String)>) -> Seq<AppView> {
    present_views(files.map_values(|f: (String, String)| catalog_entry_spec(f.0@, f.1@)))
}

pub open spec fn views_of(apps: Seq<AppInfo>) -> Seq<AppView> {
    apps.map_values(|a: AppInfo| app_view(a))
}

pub open spec fn view_key(v: AppView) -> Seq<char> {
    lower_of(v.1)
}

/// As [`stable_arrangement`], over records as plain values.
pub open spec fn stable_views(input: Seq<AppView>, output: Seq<AppView>, origin: Seq<int>) -> bool {
    &&& origin.len() == output.len()
    &&& output.len() == input.len()
    &&& forall|k: int|
        0 <= k < output.len() ==> 0 <= #[trigger] origin[k] < input.len() && output[k] == input[origin[k]]
    &&& forall|k1: int, k2: int|
        0 <= k1 < k2 < output.len() ==> #[trigger] origin[k1] != #[trigger] origin[k2]
    &&& forall|k1: int, k2: int|
        0 <= k1 < k2 < output.len() && view_key(#[trigger] output[k1]) == view_key(
            #[trigger] output[k2],
        ) ==> origin[k1] < origin[k2]
}

proof fn lemma_present_views(entries: Seq<Option<AppInfo>>)
    ensures
        views_of(present(entries)) == present_views(
            entries.map_values(|o: Option<AppInfo>| opt_app_view(o)),
        ),
    decreases entries.len(),
{
    let mapped = entries.map_values(|o: Option<AppInfo>| opt_app_view(o));
    if entries.len() == 0 {
        assert(views_of(present(entries)) =~= Seq::<AppView>::empty());
    } else {
        let init = entries.drop_last();
        lemma_present_views(init);
        assert(init.map_values(|o: Option<AppInfo>| opt_app_view(o)) =~= mapped.drop_last());
        assert(mapped.last() == opt_app_view(entries.last()));
        match entries.last() {
            Some(a) => {
                assert(views_of(present(entries)) =~= views_of(present(init)).push(app_view(a)));
            },
            None => {
                assert(views_of(present(entries)) =~= views_of(present(init)));
            },
        }
    }
}

proof fn lemma_stable_views(input: Seq<AppInfo>, output: Seq<AppInfo>, origin: Seq<int>)
    requires
        stable_arrangement(input, output, origin),
    ensures
        stable_views(
            views_of(input),
            views_of(output),
            origin,
        ),
{
    let vi = views_of(input);
    let vo = views_of(output);
    assert forall|k: int| 0 <= k < vo.len() implies 0 <= #[trigger] origin[k] < vi.len() && vo[k]
        == vi[origin[k]] by {
        assert(output[k] == input[origin[k]]);
    }
    assert forall|k1: int, k2: int|
        0 <= k1 < k2 < vo.len() && view_key(#[trigger] vo[k1]) == view_key(#[trigger] vo[k2])
            implies origin[k1] < origin[k2] by {
        assert(sort_key(output[k1]) == view_key(vo[k1]));
        assert(sort_key(output[k2]) == view_key(vo[k2]));
    }
}

/// Builds the catalog from the descriptor files found, each given as its path and its
/// text, in the order of discovery. Files that do not decode, lack a name or a command,
/// or are marked hidden or not to be displayed are skipped; the rest are listed as
/// direct lookup reads them, ordered by lowercase name, equal names in the order of
/// `files`. Descriptors of the same file name found in several directories are all
/// kept: each is selected by its own path.
pub fn get_installed_apps(files: &Vec<(String, String)>) -> (r: Vec<AppInfo>)
    ensures
        sorted_by_name(r@),
        forall|k: int| 0 <= k < r@.len() ==> is_complete(#[trigger] r@[k]),
        exists|origin: Seq<int>|
            #[trigger] stable_views(
                listed_views(files@),
                views_of(r@),
                origin,
            ),
{
    let mut entries: Vec<Option<AppInfo>> = Vec::new();
    let mut i: usize = 0;
    while i < files.len()
        invariant
            i <= files@.len(),
            entries@.len() == i,
            forall|k: int|
                0 <= k < entries@.len() ==> (#[trigger] entries@[k] matches Some(app) ==> is_complete(
                    app,
                )),
            forall|k: int|
                0 <= k < entries@.len() ==> opt_app_view(#[trigger] entries@[k]) == catalog_entry_spec(
                    files@[k].0@,
                    files@[k].1@,
                ),
        decreases files.len() - i,
    {
        let (path, text) = (&files[i].0, &files[i].1);
        let entry = catalog_entry(path.as_str(), text.as_str());
        entries.push(entry);
        i = i + 1;
    }
    let ghost listed = entries@;
    let r = catalog_from_records(entries);
    proof {
        lemma_present_from(listed);
        let origin = choose|origin: Seq<int>| stable_arrangement(present(listed), r@, origin);
        assert forall|k: int| 0 <= k < r@.len() implies is_complete(#[trigger] r@[k]) by {
            let m = origin[k];
            assert(r@[k] == present(listed)[m]);
            let j = choose|j: int|
                0 <= j < listed.len() && #[trigger] listed[j] == Some(present(listed)[m]);
            assert(listed[j] matches Some(app) ==> is_complete(app));
        }
        lemma_present_views(listed);
        lemma_stable_views(present(listed), r@, origin);
        assert(listed.map_values(|o: Option<AppInfo>| opt_app_view(o)) =~= files@.map_values(
            |f: (String, String)| catalog_entry_spec(f.0@, f.1@),
        ));
        assert(stable_views(listed_views(files@), views_of(r@), origin));
    }
    r
}

} // verus!
