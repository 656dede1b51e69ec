//! Whole documents: a single resource, or a Kubernetes list of resources
//! shown as one stanza each.
use std::cmp::Ordering;
use vstd::prelude::*;

use crate::conditions::{format_condition_table, lines_result, table_of_walk, table_result};
use crate::json::{member, member_of, same_text, Json, PathError};
use crate::order::{lemma_text_facts, then_order, tie_break, SortMode};
use crate::sort::{sorted_by, stable_arrangement_by, stable_sort, StableOrder};
use crate::table::texts;
use crate::text::{compare_text, text_order};
use crate::time::Timestamp;

verus! {

/// The text of member `key` when it is a JSON string.
pub open spec fn string_member(v: Json, key: Seq<char>) -> Option<Seq<char>> {
    match member(v, key) {
        Some(Json::String(s)) => Some(s@),
        _ => None,
    }
}

/// The resources of a Kubernetes list: the `items` array of an object whose
/// `kind` is the string `List`; nothing for any other document.
pub open spec fn list_items(root: Json) -> Option<Seq<Json>> {
    if string_member(root, "kind"@) == Some("List"@) {
        match member(root, "items"@) {
            Some(Json::Array(items)) => Some(items@),
            _ => None,
        }
    } else {
        None
    }
}

/// The string member `key` of a resource's `metadata`.
pub open spec fn metadata_text(v: Json, key: Seq<char>) -> Option<Seq<char>> {
    match member(v, "metadata"@) {
        Some(m) => string_member(m, key),
        None => None,
    }
}

/// A resource's namespace; empty for a cluster-scoped one.
pub open spec fn resource_namespace(v: Json) -> Seq<char> {
    match metadata_text(v, "namespace"@) {
        Some(s) => s,
        None => seq![],
    }
}

/// A resource's name, or `-`.
pub open spec fn resource_name(v: Json) -> Seq<char> {
    match metadata_text(v, "name"@) {
        Some(s) => s,
        None => seq!['-'],
    }
}

/// A resource's kind, or `-`.
pub open spec fn resource_kind(v: Json) -> Seq<char> {
    match string_member(v, "kind"@) {
        Some(s) => s,
        None => seq!['-'],
    }
}

/// The title of a resource's stanza: `Kind namespace/name`, or `Kind name`
/// without a namespace.
pub open spec fn resource_title(v: Json) -> Seq<char> {
    let ns = resource_namespace(v);
    resource_kind(v) + seq![' '] + if ns.len() == 0 {
        resource_name(v)
    } else {
        ns + seq!['/'] + resource_name(v)
    }
}

/// Where a resource stands in a list, with the texts it is ordered by.
pub struct ResourceKey {
    pub namespace: String,
    pub name: String,
    pub position: usize,
}

/// Resources ordered by namespace, then name.
pub struct ResourceOrder;

/// The order of two resources: by namespace (an empty one first), then name.
pub open spec fn resource_order(a: ResourceKey, b: ResourceKey) -> Ordering {
    then_order(text_order(a.namespace@, b.namespace@), text_order(a.name@, b.name@))
}

impl StableOrder<ResourceKey> for ResourceOrder {
    open spec fn before(&self, a: ResourceKey, b: ResourceKey) -> bool {
        resource_order(a, b) == Ordering::Less
    }

    open spec fn tied(&self, a: ResourceKey, b: ResourceKey) -> bool {
        resource_order(a, b) == Ordering::Equal
    }

    proof fn lemma_weak_order(&self, a: ResourceKey, b: ResourceKey, c: ResourceKey) {
        lemma_text_facts(a.namespace@, b.namespace@, c.namespace@);
        lemma_text_facts(a.name@, b.name@, c.name@);
        lemma_text_facts(a.namespace@, a.namespace@, a.namespace@);
        lemma_text_facts(a.name@, a.name@, a.name@);
    }

    fn precedes(&self, a: &ResourceKey, b: &ResourceKey) -> (r: bool) {
        let ns = compare_text(a.namespace.as_str(), b.namespace.as_str());
        let name = compare_text(a.name.as_str(), b.name.as_str());
        match tie_break(ns, name) {
            Ordering::Less => true,
            _ => false,
        }
    }
}

/// Resources are compared by namespace first and by name among equal
/// namespaces.
pub proof fn lemma_resource_order_fields(a: ResourceKey, b: ResourceKey)
    ensures
        text_order(a.namespace@, b.namespace@) == Ordering::Less ==> ResourceOrder.before(a, b),
        a.namespace@ == b.namespace@ && text_order(a.name@, b.name@) == Ordering::Less
            ==> ResourceOrder.before(a, b),
        a.namespace@ == b.namespace@ && a.name@ == b.name@ ==> ResourceOrder.tied(a, b),
{
    lemma_text_facts(a.namespace@, b.namespace@, b.namespace@);
    lemma_text_facts(a.name@, b.name@, b.name@);
}

/// Once resources are ordered, namespaces ascend, and within a namespace
/// names ascend.
pub proof fn lemma_resources_ascend(sorted: Seq<ResourceKey>, keys: Seq<ResourceKey>, i: int, j: int)
    requires
        sorted_by(ResourceOrder, sorted, keys),
        0 <= i < j < sorted.len(),
    ensures
        text_order(sorted[j].namespace@, sorted[i].namespace@) != Ordering::Less,
        sorted[i].namespace@ == sorted[j].namespace@ ==> text_order(sorted[j].name@, sorted[i].name@)
            != Ordering::Less,
{
    let p = choose|p: Seq<int>| stable_arrangement_by(ResourceOrder, sorted, keys, p);
    assert(!ResourceOrder.before(sorted[j], sorted[i]));
    lemma_resource_order_fields(sorted[j], sorted[i]);
}

/// Once resources are ordered, the cluster-scoped ones (empty namespace)
/// come before all others.
pub proof fn lemma_cluster_scoped_first(sorted: Seq<ResourceKey>, keys: Seq<ResourceKey>, i: int, j: int)
    requires
        sorted_by(ResourceOrder, sorted, keys),
        0 <= i < j < sorted.len(),
        sorted[j].namespace@.len() == 0,
    ensures
        sorted[i].namespace@.len() == 0,
{
    let p = choose|p: Seq<int>| stable_arrangement_by(ResourceOrder, sorted, keys, p);
    assert(!ResourceOrder.before(sorted[j], sorted[i]));
}

/// The text of member `key` of `v` when it is a JSON string.
pub fn string_member_of<'a>(v: &'a Json, key: &str) -> (r: Option<&'a str>)
    ensures
        match string_member(*v, key@) {
            Some(s) => r matches Some(x) && x@ == s,
            None => r is None,
        },
{
    match member_of(v, key) {
        Some(Json::String(s)) => Some(s.as_str()),
        _ => None,
    }
}

/// The resources of a Kubernetes list document, or nothing for any other
/// document.
pub fn list_entries(root: &Json) -> (r: Option<&Vec<Json>>)
    ensures
        match list_items(*root) {
            Some(items) => r matches Some(v) && v@ == items,
            None => r is None,
        },
{
    match string_member_of(root, "kind") {
        Some(kind) => {
            if same_text(kind, "List") {
                match member_of(root, "items") {
                    Some(Json::Array(items)) => Some(items),
                    _ => None,
                }
            } else {
                None
            }
        },
        None => None,
    }
}

fn metadata_string<'a>(v: &'a Json, key: &str) -> (r: Option<&'a str>)
    ensures
        match metadata_text(*v, key@) {
            Some(s) => r matches Some(x) && x@ == s,
            None => r is None,
        },
{
    match member_of(v, "metadata") {
        Some(m) => string_member_of(m, key),
        None => None,
    }
}

/// A resource's namespace; empty for a cluster-scoped one.
pub fn namespace_of(v: &Json) -> (r: String)
    ensures
        r@ == resource_namespace(*v),
{
    match metadata_string(v, "namespace") {
        Some(s) => String::from_str(s),
        None => String::new(),
    }
}

/// A resource's name, or `-`.
pub fn name_of(v: &Json) -> (r: String)
    ensures
        r@ == resource_name(*v),
{
    proof {
        reveal_strlit("-");
    }
    match metadata_string(v, "name") {
        Some(s) => String::from_str(s),
        None => String::from_str("-"),
    }
}

/// The title line of a resource's stanza.
pub fn title_of(v: &Json) -> (r: String)
    ensures
        r@ == resource_title(*v),
{
    proof {
        reveal_strlit("-");
        reveal_strlit(" ");
        reveal_strlit("/");
    }
    let mut out = match string_member_of(v, "kind") {
        Some(s) => String::from_str(s),
        None => String::from_str("-"),
    };
    out.append(" ");
    let ns = namespace_of(v);
    if ns.unicode_len() > 0 {
        out.append(ns.as_str());
        out.append("/");
    }
    let name = name_of(v);
    out.append(name.as_str());
    assert(out@ =~= resource_title(*v));
    out
}

/// Positions of the objects among `items`, in order.
pub open spec fn object_positions(items: Seq<Json>) -> Seq<int>
    decreases items.len(),
{
    if items.len() == 0 {
        seq![]
    } else {
        let rest = object_positions(items.drop_last());
        if items.last() is Object {
            rest.push(items.len() - 1)
        } else {
            rest
        }
    }
}

proof fn lemma_object_positions(items: Seq<Json>)
    ensures
        forall|j: int|
            0 <= j < object_positions(items).len() ==> 0 <= #[trigger] object_positions(items)[j]
                < items.len() && items[object_positions(items)[j]] is Object,
    decreases items.len(),
{
    if items.len() > 0 {
        lemma_object_positions(items.drop_last());
    }
}

/// `keys` stand for the objects at `positions` of `items`, in order.
pub open spec fn keys_for(keys: Seq<ResourceKey>, positions: Seq<int>, items: Seq<Json>) -> bool {
    &&& keys.len() == positions.len()
    &&& forall|j: int|
        0 <= j < keys.len() ==> {
            &&& #[trigger] keys[j].position == positions[j]
            &&& keys[j].namespace@ == resource_namespace(items[positions[j]])
            &&& keys[j].name@ == resource_name(items[positions[j]])
        }
}

/// The stanzas of a list: a blank line between stanzas, each stanza its
/// title line followed by its table.
pub open spec fn stanzas(titles: Seq<Seq<char>>, tables: Seq<Seq<Seq<char>>>) -> Seq<Seq<char>>
    decreases titles.len(),
{
    if titles.len() == 0 {
        seq![]
    } else {
        let k = titles.len() - 1;
        let gap: Seq<Seq<char>> = if k > 0 {
            seq![seq![]]
        } else {
            seq![]
        };
        stanzas(titles.drop_last(), tables.drop_last()) + gap + seq![titles[k]] + tables[k]
    }
}

/// The titles of the resources that `keys` stand for.
pub open spec fn key_titles(keys: Seq<ResourceKey>, items: Seq<Json>) -> Seq<Seq<char>> {
    keys.map_values(|k: ResourceKey| resource_title(items[k.position as int]))
}

/// The condition table of `root` at `path` comes out without an error.
pub open spec fn table_succeeds(
    root: Json,
    path: Seq<char>,
    mode: SortMode,
    reverse: bool,
    no_header: bool,
    now: Timestamp,
) -> bool {
    exists|lines: Seq<Seq<char>>| table_of_walk(root, path, mode, reverse, no_header, now, lines)
}

/// `r` is what the stanzas of the resources that `sorted` stands for come
/// to: every table and the stanzas built from them, or the error of the
/// first table that fails.
pub open spec fn stanzas_result(
    items: Seq<Json>,
    sorted: Seq<ResourceKey>,
    path: Seq<char>,
    mode: SortMode,
    reverse: bool,
    no_header: bool,
    now: Timestamp,
    r: Result<Seq<Seq<char>>, PathError>,
) -> bool {
    match r {
        Ok(lines) => exists|tables: Seq<Seq<Seq<char>>>|
            #![trigger stanzas(key_titles(sorted, items), tables)]
            {
                &&& tables.len() == sorted.len()
                &&& forall|i: int|
                    0 <= i < sorted.len() ==> #[trigger] table_result(
                        items[sorted[i].position as int],
                        path,
                        mode,
                        reverse,
                        no_header,
                        now,
                        Ok(tables[i]),
                    )
                &&& lines == stanzas(key_titles(sorted, items), tables)
            },
        Err(e) => exists|k: int|
            {
                &&& 0 <= k < sorted.len()
                &&& forall|i: int|
                    0 <= i < k ==> #[trigger] table_succeeds(
                        items[sorted[i].position as int],
                        path,
                        mode,
                        reverse,
                        no_header,
                        now,
                    )
                &&& #[trigger] table_result(
                    items[sorted[k].position as int],
                    path,
                    mode,
                    reverse,
                    no_header,
                    now,
                    Err(e),
                )
            },
    }
}

/// `r` is what the lines of a list document come to: its object items are
/// ordered stably by namespace and name, and each becomes a stanza.
pub open spec fn list_result(
    items: Seq<Json>,
    path: Seq<char>,
    mode: SortMode,
    reverse: bool,
    no_header: bool,
    now: Timestamp,
    r: Result<Seq<Seq<char>>, PathError>,
) -> bool {
    exists|keys: Seq<ResourceKey>, sorted: Seq<ResourceKey>|
        #![trigger sorted_by(ResourceOrder, sorted, keys)]
        {
            &&& keys_for(keys, object_positions(items), items)
            &&& sorted_by(ResourceOrder, sorted, keys)
            &&& stanzas_result(items, sorted, path, mode, reverse, no_header, now, r)
        }
}

/// `r` is what the lines of the document `root` come to: a list document
/// by stanzas, any other document as one condition table.
pub open spec fn document_result(
    root: Json,
    path: Seq<char>,
    mode: SortMode,
    reverse: bool,
    no_header: bool,
    now: Timestamp,
    r: Result<Seq<Seq<char>>, PathError>,
) -> bool {
    match list_items(root) {
        None => table_result(root, path, mode, reverse, no_header, now, r),
        Some(items) => list_result(items, path, mode, reverse, no_header, now, r),
    }
}

/// The lines that a document prints.  A Kubernetes list (`kind` `List` with
/// an `items` array) gives one stanza per object item, ordered by namespace
/// (an empty one first) and then name: a title line, then the condition
/// table of that resource, with a blank line before every stanza after the
/// first; items that are not objects are skipped, and the first table that
/// fails makes the whole document fail.  Any other document gives its
/// condition table.  `mode` and `reverse` order the rows of each table.
pub fn format_document(
    root: &Json,
    path: &str,
    mode: SortMode,
    reverse: bool,
    no_header: bool,
    now: Timestamp,
) -> (r: Result<Vec<String>, PathError>)
    ensures
        document_result(*root, path@, mode, reverse, no_header, now, lines_result(r)),
{
    let items = match list_entries(root) {
        None => {
            return format_condition_table(root, path, mode, reverse, no_header, now);
        },
        Some(items) => items,
    };
    let n = items.len();
    let mut keys: Vec<ResourceKey> = Vec::new();
    for i in 0..n
        invariant
            n == items@.len(),
            keys_for(keys@, object_positions(items@.take(i as int)), items@),
    {
        assert(items@.take(i + 1).drop_last() =~= items@.take(i as int));
        assert(items@.take(i + 1).last() == items@[i as int]);
        if let Json::Object(_) = &items[i] {
            assert(object_positions(items@.take(i + 1)) == object_positions(items@.take(i as int)).push(
                i as int,
            ));
            let key = ResourceKey { namespace: namespace_of(&items[i]), name: name_of(&items[i]), position: i };
            let ghost before = keys@;
            keys.push(key);
            assert(keys_for(keys@, object_positions(items@.take(i + 1)), items@)) by {
                assert forall|j: int| 0 <= j < keys@.len() implies {
                    &&& #[trigger] keys@[j].position == object_positions(items@.take(i + 1))[j]
                    &&& keys@[j].namespace@ == resource_namespace(items@[object_positions(items@.take(i + 1))[j]])
                    &&& keys@[j].name@ == resource_name(items@[object_positions(items@.take(i + 1))[j]])
                } by {
                    if j < before.len() {
                        assert(keys@[j] == before[j]);
                    }
                }
            }
        } else {
            assert(object_positions(items@.take(i + 1)) == object_positions(items@.take(i as int)));
        }
    }
    assert(items@.take(n as int) =~= items@);
    let ghost unsorted = keys@;
    let ghost positions = object_positions(items@);
    proof {
        lemma_object_positions(items@);
    }
    stable_sort(&ResourceOrder, keys.as_mut_slice());
    let ghost sorted = keys@;
    proof {
        let p = choose|p: Seq<int>| stable_arrangement_by(ResourceOrder, sorted, unsorted, p);
        assert forall|t: int| 0 <= t < sorted.len() implies #[trigger] sorted[t].position < n by {
            assert(sorted[t] == unsorted[p[t]]);
            assert(unsorted[p[t]].position == positions[p[t]]);
        }
    }
    let ghost titles = key_titles(sorted, items@);
    let ghost mut tables: Seq<Seq<Seq<char>>> = seq![];
    let mut lines: Vec<String> = Vec::new();
    let m = keys.len();
    for t in 0..m
        invariant
            m == keys@.len(),
            n == items@.len(),
            sorted == keys@,
            list_items(*root) == Some(items@),
            keys_for(unsorted, object_positions(items@), items@),
            sorted_by(ResourceOrder, sorted, unsorted),
            titles == key_titles(sorted, items@),
            forall|u: int| 0 <= u < sorted.len() ==> #[trigger] sorted[u].position < n,
            tables.len() == t,
            forall|i: int|
                0 <= i < t ==> #[trigger] table_result(
                    items@[sorted[i].position as int],
                    path@,
                    mode,
                    reverse,
                    no_header,
                    now,
                    Ok(tables[i]),
                ),
            texts(lines@) == stanzas(titles.take(t as int), tables),
    {
        let item = &items[keys[t].position];
        let outcome = format_condition_table(item, path, mode, reverse, no_header, now);
        match outcome {
            Err(e) => {
                proof {
                    assert forall|i: int| 0 <= i < t implies #[trigger] table_succeeds(
                        items@[sorted[i].position as int],
                        path@,
                        mode,
                        reverse,
                        no_header,
                        now,
                    ) by {
                        assert(table_result(
                            items@[sorted[i].position as int],
                            path@,
                            mode,
                            reverse,
                            no_header,
                            now,
                            Ok(tables[i]),
                        ));
                    }
                    assert(table_result(items@[sorted[t as int].position as int], path@, mode, reverse, no_header, now, Err(e)));
                    assert(stanzas_result(items@, sorted, path@, mode, reverse, no_header, now, Err(e)));
                    assert(list_result(items@, path@, mode, reverse, no_header, now, Err(e)));
                }
                let failed: Result<Vec<String>, PathError> = Err(e);
                assert(lines_result(failed) == Err::<Seq<Seq<char>>, PathError>(e));
                return failed;
            },
            Ok(mut table) => {
                let ghost before = texts(lines@);
                let ghost shown = texts(table@);
                if t > 0 {
                    lines.push(String::new());
                }
                lines.push(title_of(item));
                lines.append(&mut table);
                proof {
                    let gap: Seq<Seq<char>> = if t > 0 {
                        seq![seq![]]
                    } else {
                        seq![]
                    };
                    assert(texts(lines@) =~= before + gap + seq![titles[t as int]] + shown);
                    let next = tables.push(shown);
                    assert(titles.take(t + 1).drop_last() =~= titles.take(t as int));
                    assert(next.drop_last() =~= tables);
                    assert(stanzas(titles.take(t + 1), next) == stanzas(titles.take(t as int), tables) + gap
                        + seq![titles[t as int]] + shown);
                    tables = next;
                }
            },
        }
    }
    proof {
        assert(titles.take(m as int) =~= titles);
        assert(stanzas_result(items@, sorted, path@, mode, reverse, no_header, now, Ok(texts(lines@))));
        assert(list_result(items@, path@, mode, reverse, no_header, now, Ok(texts(lines@))));
    }
    let ghost shown = texts(lines@);
    let done: Result<Vec<String>, PathError> = Ok(lines);
    assert(lines_result(done) == Ok::<Seq<Seq<char>>, PathError>(shown));
    done
}

} // verus!
