//! Completion items, made from what the language engine suggests.

use vstd::prelude::*;
use crate::bytes::{bytes_less, copy_bytes, spec_less, COLON};
use crate::position::Position;

verus! {

/// What a completion item carries along so that its documentation can be
/// looked up later: the document and the position of the request.
#[derive(Clone, Debug, PartialEq, Eq)]
pub struct CompletionData {
    pub text_document_uri: Vec<u8>,
    pub position: Position,
}

/// One suggestion of the language engine: a name and a rendered type.
#[derive(Clone, Debug, PartialEq, Eq)]
pub struct Suggestion {
    pub name: Vec<u8>,
    pub typ: Vec<u8>,
}

#[derive(Clone, Copy, Debug, PartialEq, Eq, Structural)]
pub enum CompletionItemKind {
    Variable,
}

/// One entry of a completion list.
#[derive(Clone, Debug, PartialEq, Eq)]
pub struct CompletionItem {
    pub label: Vec<u8>,
    pub kind: Option<CompletionItemKind>,
    pub detail: Option<Vec<u8>>,
    pub documentation: Option<Vec<u8>>,
    pub data: Option<CompletionData>,
}

/// A completion item as a value.
pub struct CompletionItemView {
    pub label: Seq<u8>,
    pub kind: Option<CompletionItemKind>,
    pub detail: Option<Seq<u8>>,
    pub documentation: Option<Seq<u8>>,
    pub data: Option<(Seq<u8>, Position)>,
}

/// An optional byte string as a value.
pub open spec fn optional(bytes: Option<Vec<u8>>) -> Option<Seq<u8>> {
    match bytes {
        Some(bytes) => Some(bytes@),
        None => None,
    }
}

impl View for CompletionItem {
    type V = CompletionItemView;

    open spec fn view(&self) -> CompletionItemView {
        CompletionItemView {
            label: self.label@,
            kind: self.kind,
            detail: optional(self.detail),
            documentation: optional(self.documentation),
            data: match self.data {
                Some(data) => Some((data.text_document_uri@, data.position)),
                None => None,
            },
        }
    }
}

/// The completion items of a list as values.
pub open spec fn item_views(items: Seq<CompletionItem>) -> Seq<CompletionItemView> {
    items.map_values(|item: CompletionItem| item@)
}

/// Number of bytes of `name` before its first colon.
pub open spec fn spec_label_len(name: Seq<u8>) -> int
    decreases name.len(),
{
    if name.len() == 0 || name.first() == COLON {
        0
    } else {
        1 + spec_label_len(name.drop_first())
    }
}

/// The label of a suggested name: the name up to its first colon, which
/// takes off the place of definition that the engine may put behind it.
pub open spec fn spec_label(name: Seq<u8>) -> Seq<u8> {
    name.take(spec_label_len(name))
}

/// The completion item for a suggestion asked for at `position` in `uri`.
pub open spec fn spec_item(suggestion: Suggestion, uri: Seq<u8>, position: Position) -> CompletionItemView {
    CompletionItemView {
        label: spec_label(suggestion.name@),
        kind: Some(CompletionItemKind::Variable),
        detail: Some(suggestion.typ@),
        documentation: None,
        data: Some((uri, position)),
    }
}

/// The completion items for a list of suggestions, in their order.
pub open spec fn spec_items(suggestions: Seq<Suggestion>, uri: Seq<u8>, position: Position) -> Seq<
    CompletionItemView,
> {
    suggestions.map_values(|suggestion: Suggestion| spec_item(suggestion, uri, position))
}

/// `sorted` with `item` put in before the first item whose label comes
/// after its label, so behind every item with the same label.
pub open spec fn spec_insert(sorted: Seq<CompletionItemView>, item: CompletionItemView) -> Seq<
    CompletionItemView,
>
    decreases sorted.len(),
{
    if sorted.len() == 0 {
        seq![item]
    } else if spec_less(item.label, sorted.first().label) {
        seq![item] + sorted
    } else {
        seq![sorted.first()] + spec_insert(sorted.drop_first(), item)
    }
}

/// The items in dictionary order of their labels; items with the same
/// label keep their order.
pub open spec fn spec_sort(items: Seq<CompletionItemView>) -> Seq<CompletionItemView>
    decreases items.len(),
{
    if items.len() == 0 {
        Seq::empty()
    } else {
        spec_insert(spec_sort(items.drop_last()), items.last())
    }
}

/// No item comes before an item whose label comes before its own.
pub open spec fn is_ordered(items: Seq<CompletionItemView>) -> bool {
    forall|i: int, j: int|
        0 <= i < j < items.len() ==> !spec_less((#[trigger] items[j]).label, (#[trigger] items[i]).label)
}

/// Putting an item into an ordered list at the place `spec_insert` finds
/// is putting it at index `at`, if no label before `at` comes after the
/// item's and the label at `at` does.
pub proof fn lemma_insert_at(sorted: Seq<CompletionItemView>, item: CompletionItemView, at: int)
    requires
        0 <= at <= sorted.len(),
        forall|j: int| 0 <= j < at ==> !spec_less(item.label, (#[trigger] sorted[j]).label),
        at < sorted.len() ==> spec_less(item.label, sorted[at].label),
    ensures
        spec_insert(sorted, item) == sorted.insert(at, item),
    decreases sorted.len(),
{
    if sorted.len() == 0 {
        assert(sorted.insert(at, item) =~= seq![item]);
    } else if at == 0 {
        assert(sorted.insert(0, item) =~= seq![item] + sorted);
    } else {
        let shorter = sorted.drop_first();
        assert(!spec_less(item.label, sorted[0].label));
        assert forall|j: int| 0 <= j < at - 1 implies !spec_less(
            item.label,
            (#[trigger] shorter[j]).label,
        ) by {
            assert(shorter[j] == sorted[j + 1]);
        }
        lemma_insert_at(shorter, item, at - 1);
        assert(sorted.insert(at, item) =~= seq![sorted.first()] + shorter.insert(at - 1, item));
    }
}

/// Sorting keeps every item, as often as it occurs, and puts the items in
/// order.
pub proof fn law_sort(items: Seq<CompletionItemView>)
    ensures
        spec_sort(items).len() == items.len(),
        spec_sort(items).to_multiset() == items.to_multiset(),
        is_ordered(spec_sort(items)),
    decreases items.len(),
{
    if items.len() == 0 {
        assert(items =~= Seq::<CompletionItemView>::empty());
    } else {
        let shorter = items.drop_last();
        law_sort(shorter);
        lemma_insert(spec_sort(shorter), items.last());
        assert(items =~= shorter.push(items.last()));
        vstd::seq_lib::to_multiset_build(shorter, items.last());
    }
}

/// Putting an item into an ordered list keeps the list ordered and adds
/// the item to what the list holds.
pub proof fn lemma_insert(sorted: Seq<CompletionItemView>, item: CompletionItemView)
    requires
        is_ordered(sorted),
    ensures
        spec_insert(sorted, item).len() == sorted.len() + 1,
        spec_insert(sorted, item).to_multiset() == sorted.to_multiset().insert(item),
        is_ordered(spec_insert(sorted, item)),
        exists|at: int|
            0 <= at <= sorted.len() && spec_insert(sorted, item) == sorted.insert(at, item) && (
            forall|j: int| 0 <= j < at ==> !spec_less(item.label, (#[trigger] sorted[j]).label)) && (
            forall|j: int| at <= j < sorted.len() ==> spec_less(item.label, (#[trigger] sorted[j]).label)),
    decreases sorted.len(),
{
    let result = spec_insert(sorted, item);
    if sorted.len() == 0 {
        assert(result =~= sorted.insert(0, item));
        lemma_insert_multiset(sorted, item, 0);
    } else if spec_less(item.label, sorted.first().label) {
        assert(result =~= sorted.insert(0, item));
        assert forall|j: int| 0 <= j < sorted.len() implies spec_less(
            item.label,
            (#[trigger] sorted[j]).label,
        ) by {
            if j > 0 {
                crate::bytemap::lemma_less_total(sorted[j].label, sorted[0].label);
                if sorted[j].label != sorted[0].label {
                    crate::bytemap::lemma_less_transitive(item.label, sorted[0].label, sorted[j].label);
                }
            }
        }
        assert forall|i: int, j: int| 0 <= i < j < result.len() implies !spec_less(
            (#[trigger] result[j]).label,
            (#[trigger] result[i]).label,
        ) by {
            if i == 0 {
                assert(result[j] == sorted[j - 1]);
                crate::bytemap::lemma_less_irreflexive(item.label);
                if spec_less(result[j].label, item.label) {
                    crate::bytemap::lemma_less_transitive(item.label, result[j].label, item.label);
                }
            } else {
                assert(result[i] == sorted[i - 1]);
                assert(result[j] == sorted[j - 1]);
            }
        }
        lemma_insert_multiset(sorted, item, 0);
    } else {
        let shorter = sorted.drop_first();
        assert forall|i: int, j: int| 0 <= i < j < shorter.len() implies !spec_less(
            (#[trigger] shorter[j]).label,
            (#[trigger] shorter[i]).label,
        ) by {
            assert(shorter[i] == sorted[i + 1]);
            assert(shorter[j] == sorted[j + 1]);
        }
        lemma_insert(shorter, item);
        let inner = choose|at: int|
            0 <= at <= shorter.len() && spec_insert(shorter, item) == shorter.insert(at, item) && (
            forall|j: int| 0 <= j < at ==> !spec_less(item.label, (#[trigger] shorter[j]).label)) && (
            forall|j: int| at <= j < shorter.len() ==> spec_less(item.label, (#[trigger] shorter[j]).label));
        let at = inner + 1;
        assert(result =~= sorted.insert(at, item));
        assert forall|j: int| 0 <= j < at implies !spec_less(item.label, (#[trigger] sorted[j]).label) by {
            if j > 0 {
                assert(sorted[j] == shorter[j - 1]);
            }
        }
        assert forall|j: int| at <= j < sorted.len() implies spec_less(
            item.label,
            (#[trigger] sorted[j]).label,
        ) by {
            assert(sorted[j] == shorter[j - 1]);
        }
        assert forall|i: int, j: int| 0 <= i < j < result.len() implies !spec_less(
            (#[trigger] result[j]).label,
            (#[trigger] result[i]).label,
        ) by {
            let from_i = if i < at { i } else { i - 1 };
            let from_j = if j < at { j } else { j - 1 };
            if i != at && j != at {
                assert(result[i] == sorted[from_i]);
                assert(result[j] == sorted[from_j]);
            } else if i == at {
                assert(result[j] == sorted[j - 1]);
                crate::bytemap::lemma_less_irreflexive(item.label);
                if spec_less(result[j].label, item.label) {
                    crate::bytemap::lemma_less_transitive(item.label, result[j].label, item.label);
                }
            } else {
                assert(result[i] == sorted[i]);
            }
        }
        lemma_insert_multiset(sorted, item, at);
    }
}

/// Inserting into a list adds one item to what it holds.
pub proof fn lemma_insert_multiset(items: Seq<CompletionItemView>, item: CompletionItemView, at: int)
    requires
        0 <= at <= items.len(),
    ensures
        items.insert(at, item).to_multiset() == items.to_multiset().insert(item),
{
    broadcast use vstd::multiset::group_multiset_axioms;

    let front = items.subrange(0, at);
    let back = items.subrange(at, items.len() as int);
    assert(items =~= front + back);
    assert(items.insert(at, item) =~= front.push(item) + back);
    vstd::seq_lib::lemma_multiset_commutative(front, back);
    vstd::seq_lib::lemma_multiset_commutative(front.push(item), back);
    vstd::seq_lib::to_multiset_build(front, item);
    assert(items.insert(at, item).to_multiset() =~= items.to_multiset().insert(item));
}

/// The label of a suggested name.
pub fn label_of(name: &[u8]) -> (label: Vec<u8>)
    ensures
        label@ == spec_label(name@),
{
    let mut end: usize = 0;
    assert(name@.skip(0) =~= name@);
    while end < name.len() && name[end] != COLON
        invariant
            end <= name.len(),
            spec_label_len(name@) == end + spec_label_len(name@.skip(end as int)),
        decreases name.len() - end,
    {
        assert(name@.skip(end as int).drop_first() =~= name@.skip(end + 1));
        end += 1;
    }
    copy_bytes(&name[0..end])
}

/// The completion item for a suggestion asked for at `position` in `uri`.
pub fn completion_item(suggestion: &Suggestion, uri: &[u8], position: Position) -> (item:
    CompletionItem)
    ensures
        item@ == spec_item(*suggestion, uri@, position),
{
    CompletionItem {
        label: label_of(suggestion.name.as_slice()),
        kind: Some(CompletionItemKind::Variable),
        detail: Some(copy_bytes(suggestion.typ.as_slice())),
        documentation: None,
        data: Some(CompletionData { text_document_uri: copy_bytes(uri), position }),
    }
}

/// The completion list for the suggestions of the engine: one item each,
/// in dictionary order of the labels.
pub fn completion_items(suggestions: &Vec<Suggestion>, uri: &[u8], position: Position) -> (items:
    Vec<CompletionItem>)
    ensures
        item_views(items@) == spec_sort(spec_items(suggestions@, uri@, position)),
{
    let mut items: Vec<CompletionItem> = Vec::new();
    let mut i: usize = 0;
    let ghost all = spec_items(suggestions@, uri@, position);
    assert(all.take(0) =~= Seq::<CompletionItemView>::empty());
    assert(item_views(items@) =~= Seq::<CompletionItemView>::empty());
    while i < suggestions.len()
        invariant
            i <= suggestions.len(),
            all == spec_items(suggestions@, uri@, position),
            item_views(items@) == spec_sort(all.take(i as int)),
        decreases suggestions.len() - i,
    {
        let item = completion_item(&suggestions[i], uri, position);
        let ghost sorted = item_views(items@);
        let mut at: usize = 0;
        while at < items.len() && !bytes_less(item.label.as_slice(), items[at].label.as_slice())
            invariant
                at <= items.len(),
                sorted == item_views(items@),
                forall|j: int| 0 <= j < at ==> !spec_less(item@.label, (#[trigger] sorted[j]).label),
            decreases items.len() - at,
        {
            at += 1;
        }
        proof {
            lemma_insert_at(sorted, item@, at as int);
            assert(all.take(i + 1).drop_last() =~= all.take(i as int));
            assert(all.take(i + 1).last() == item@);
        }
        items.insert(at, item);
        assert(item_views(items@) =~= sorted.insert(at as int, item@));
        i += 1;
    }
    assert(all.take(i as int) =~= all);
    items
}

/// The item with the documentation that the engine found for it, or none.
pub fn resolve_item(item: CompletionItem, comment: Option<Vec<u8>>) -> (resolved: CompletionItem)
    ensures
        resolved@ == (CompletionItemView { documentation: optional(comment), ..item@ }),
{
    let mut resolved = item;
    resolved.documentation = comment;
    resolved
}

} // verus!
