//! Documents: the nested values that a profile and its data are read from.

use crate::merge::Merge;
use vstd::prelude::*;

verus! {

/// A document: a scalar, a list of documents, or a table from documents to
/// documents. A number is held as it is written.
#[derive(Debug, PartialEq, Eq)]
pub enum Document {
    Null,
    Bool(bool),
    Number(String),
    Text(String),
    List(Vec<Document>),
    Table(Vec<(Document, Document)>),
    Tagged(String, Box<Document>),
}

/// The mathematical value of a [`Document`].
pub enum DocumentView {
    Null,
    Bool(bool),
    Number(Seq<char>),
    Text(Seq<char>),
    List(Seq<DocumentView>),
    Table(Seq<(DocumentView, DocumentView)>),
    Tagged(Seq<char>, Box<DocumentView>),
}

/// The value of a list of documents.
pub open spec fn list_value(items: Seq<Document>) -> Seq<DocumentView>
    decreases items,
{
    Seq::new(
        items.len(),
        |i: int|
            if 0 <= i < items.len() {
                document_value(items[i])
            } else {
                DocumentView::Null
            },
    )
}

/// The value of the pairs of a table.
pub open spec fn table_value(pairs: Seq<(Document, Document)>) -> Seq<
    (DocumentView, DocumentView),
>
    decreases pairs,
{
    Seq::new(
        pairs.len(),
        |i: int|
            if 0 <= i < pairs.len() {
                (document_value(pairs[i].0), document_value(pairs[i].1))
            } else {
                (DocumentView::Null, DocumentView::Null)
            },
    )
}

/// The value of a document.
pub open spec fn document_value(d: Document) -> DocumentView
    decreases d,
{
    match d {
        Document::Null => DocumentView::Null,
        Document::Bool(b) => DocumentView::Bool(b),
        Document::Number(n) => DocumentView::Number(n@),
        Document::Text(s) => DocumentView::Text(s@),
        Document::List(items) => DocumentView::List(list_value(items@)),
        Document::Table(pairs) => DocumentView::Table(table_value(pairs@)),
        Document::Tagged(t, inner) => DocumentView::Tagged(t@, Box::new(document_value(*inner))),
    }
}

impl View for Document {
    type V = DocumentView;

    open spec fn view(&self) -> DocumentView {
        document_value(*self)
    }
}

/// The index of the first pair whose key is `key`, or the number of pairs
/// where none has that key.
pub open spec fn key_index(pairs: Seq<(DocumentView, DocumentView)>, key: DocumentView) -> nat
    decreases pairs.len(),
{
    if pairs.len() == 0 || pairs[0].0 == key {
        0
    } else {
        1 + key_index(pairs.skip(1), key)
    }
}

/// `key_index` is the one index before which no pair has the key and at
/// which one has it, or the pairs end.
pub proof fn lemma_key_index(pairs: Seq<(DocumentView, DocumentView)>, key: DocumentView, k: int)
    requires
        0 <= k <= pairs.len(),
        forall|j: int| 0 <= j < k ==> pairs[j].0 != key,
        k < pairs.len() ==> pairs[k].0 == key,
    ensures
        key_index(pairs, key) == k,
    decreases pairs.len(),
{
    if k > 0 {
        lemma_key_index(pairs.skip(1), key, k - 1);
    }
}

/// The number of pairs of a table; of another document, none.
pub open spec fn pair_count(d: DocumentView) -> nat {
    match d {
        DocumentView::Table(pairs) => pairs.len(),
        _ => 0,
    }
}

/// What merging `other` into `this` gives.
///
/// Nothing is merged from a null. A table is merged into a table key by
/// key, and a list is added behind a list; into anything else neither
/// changes anything. Any other document replaces what was there.
pub open spec fn merged_document(this: DocumentView, other: DocumentView) -> DocumentView
    decreases other, pair_count(other) + 1,
{
    match other {
        DocumentView::Null => this,
        DocumentView::Table(added) => match this {
            DocumentView::Table(kept) => DocumentView::Table(
                merged_pairs(kept, other, added.len()),
            ),
            _ => this,
        },
        DocumentView::List(added) => match this {
            DocumentView::List(kept) => DocumentView::List(kept + added),
            _ => this,
        },
        _ => other,
    }
}

/// The pairs `kept` after the first `n` pairs of the table `other` are
/// merged into them: a pair whose key is new is added at the end, and the
/// value of any other is merged into the value that the key has.
pub open spec fn merged_pairs(
    kept: Seq<(DocumentView, DocumentView)>,
    other: DocumentView,
    n: nat,
) -> Seq<(DocumentView, DocumentView)>
    decreases other, n,
{
    match other {
        DocumentView::Table(added) => {
            if n == 0 || n > added.len() {
                kept
            } else {
                let done = merged_pairs(kept, other, (n - 1) as nat);
                let pair = added[n - 1];
                let i = key_index(done, pair.0) as int;
                if i < done.len() {
                    done.update(i, (done[i].0, merged_document(done[i].1, pair.1)))
                } else {
                    done.push(pair)
                }
            }
        },
        _ => kept,
    }
}

impl Document {
    /// A copy of the document.
    #[verifier::loop_isolation(false)]
    pub fn clone_document(&self) -> (r: Document)
        ensures
            r@ == self@,
        decreases self,
    {
        match self {
            Document::Null => Document::Null,
            Document::Bool(b) => Document::Bool(*b),
            Document::Number(n) => Document::Number(n.clone()),
            Document::Text(s) => Document::Text(s.clone()),
            Document::List(items) => {
                let mut out: Vec<Document> = Vec::new();
                let mut i: usize = 0;
                while i < items.len()
                    invariant
                        i <= items.len(),
                        list_value(out@) == list_value(items@).take(i as int),
                    decreases items.len() - i,
                {
                    assert(decreases_to!(items => items[i as int]));
                    let item = items[i].clone_document();
                    let ghost before = list_value(out@);
                    out.push(item);
                    assert(list_value(out@) =~= before.push(item@));
                    assert(list_value(out@) =~= list_value(items@).take(i + 1));
                    i += 1;
                }
                assert(list_value(items@).take(i as int) =~= list_value(items@));
                Document::List(out)
            },
            Document::Table(pairs) => {
                let mut out: Vec<(Document, Document)> = Vec::new();
                let mut i: usize = 0;
                while i < pairs.len()
                    invariant
                        i <= pairs.len(),
                        table_value(out@) == table_value(pairs@).take(i as int),
                    decreases pairs.len() - i,
                {
                    assert(decreases_to!(pairs => pairs[i as int]));
                    let key = pairs[i].0.clone_document();
                    let value = pairs[i].1.clone_document();
                    let ghost before = table_value(out@);
                    out.push((key, value));
                    assert(table_value(out@) =~= before.push((key@, value@)));
                    assert(table_value(out@) =~= table_value(pairs@).take(i + 1));
                    i += 1;
                }
                assert(table_value(pairs@).take(i as int) =~= table_value(pairs@));
                Document::Table(out)
            },
            Document::Tagged(t, inner) => Document::Tagged(
                t.clone(),
                Box::new(inner.clone_document()),
            ),
        }
    }

    /// Whether two documents have the same value.
    #[verifier::loop_isolation(false)]
    pub fn same_document(&self, other: &Document) -> (r: bool)
        ensures
            r == (self@ == other@),
        decreases self,
    {
        match (self, other) {
            (Document::Null, Document::Null) => true,
            (Document::Bool(a), Document::Bool(b)) => *a == *b,
            (Document::Number(a), Document::Number(b)) => *a == *b,
            (Document::Text(a), Document::Text(b)) => *a == *b,
            (Document::List(a), Document::List(b)) => {
                if a.len() != b.len() {
                    assert(list_value(a@).len() != list_value(b@).len());
                    return false;
                }
                let mut i: usize = 0;
                while i < a.len()
                    invariant
                        i <= a.len(),
                        a.len() == b.len(),
                        forall|j: int| 0 <= j < i ==> a[j]@ == b[j]@,
                    decreases a.len() - i,
                {
                    assert(decreases_to!(a => a[i as int]));
                    if !a[i].same_document(&b[i]) {
                        assert(list_value(a@)[i as int] != list_value(b@)[i as int]);
                        return false;
                    }
                    i += 1;
                }
                assert(list_value(a@) =~= list_value(b@));
                true
            },
            (Document::Table(a), Document::Table(b)) => {
                if a.len() != b.len() {
                    assert(table_value(a@).len() != table_value(b@).len());
                    return false;
                }
                let mut i: usize = 0;
                while i < a.len()
                    invariant
                        i <= a.len(),
                        a.len() == b.len(),
                        forall|j: int| 0 <= j < i ==> a[j].0@ == b[j].0@ && a[j].1@ == b[j].1@,
                    decreases a.len() - i,
                {
                    assert(decreases_to!(a => a[i as int]));
                    if !a[i].0.same_document(&b[i].0) || !a[i].1.same_document(&b[i].1) {
                        assert(table_value(a@)[i as int] != table_value(b@)[i as int]);
                        return false;
                    }
                    i += 1;
                }
                assert(table_value(a@) =~= table_value(b@));
                true
            },
            (Document::Tagged(s, a), Document::Tagged(t, b)) => *s == *t && a.same_document(b),
            _ => false,
        }
    }
}

/// The index of the first pair whose key has the value of `key`, or the
/// number of pairs.
fn find_key(pairs: &Vec<(Document, Document)>, key: &Document) -> (k: usize)
    ensures
        k == key_index(table_value(pairs@), key@),
        k <= pairs.len(),
{
    let mut k: usize = 0;
    while k < pairs.len()
        invariant
            k <= pairs.len(),
            forall|j: int| 0 <= j < k ==> table_value(pairs@)[j].0 != key@,
        decreases pairs.len() - k,
    {
        if pairs[k].0.same_document(key) {
            proof {
                assert(table_value(pairs@)[k as int].0 == key@);
                lemma_key_index(table_value(pairs@), key@, k as int);
            }
            return k;
        }
        assert(table_value(pairs@)[k as int].0 != key@);
        k += 1;
    }
    proof {
        lemma_key_index(table_value(pairs@), key@, k as int);
    }
    k
}

/// Merges the document `other` into `this`.
#[verifier::loop_isolation(false)]
fn merge_into(this: Document, other: &Document) -> (r: Document)
    ensures
        r@ == merged_document(this@, other@),
    decreases other,
{
    match other {
        Document::Null => this,
        Document::Table(added) => match this {
            Document::Table(kept) => {
                let ghost start = table_value(kept@);
                let mut kept = kept;
                let mut n: usize = 0;
                while n < added.len()
                    invariant
                        n <= added.len(),
                        table_value(kept@) == merged_pairs(start, other@, n as nat),
                    decreases added.len() - n,
                {
                    let ghost done = table_value(kept@);
                    assert(table_value(added@)[n as int] == (added[n as int].0@, added[n as int].1@));
                    let k = find_key(&kept, &added[n].0);
                    if k < kept.len() {
                        let (key, value) = kept.remove(k);
                        assert(decreases_to!(added => added[n as int]));
                        let value = merge_into(value, &added[n].1);
                        let ghost pair = (key@, value@);
                        kept.insert(k, (key, value));
                        assert(table_value(kept@) =~= done.update(k as int, pair));
                    } else {
                        let key = added[n].0.clone_document();
                        let value = added[n].1.clone_document();
                        kept.push((key, value));
                        assert(table_value(kept@) =~= done.push((key@, value@)));
                    }
                    n += 1;
                }
                assert(this@ == DocumentView::Table(start));
                assert(other@ == DocumentView::Table(table_value(added@)));
                Document::Table(kept)
            },
            _ => this,
        },
        Document::List(added) => match this {
            Document::List(kept) => {
                let ghost start = list_value(kept@);
                let mut kept = kept;
                let mut n: usize = 0;
                while n < added.len()
                    invariant
                        n <= added.len(),
                        list_value(kept@) == start + list_value(added@).take(n as int),
                    decreases added.len() - n,
                {
                    let ghost done = list_value(kept@);
                    let item = added[n].clone_document();
                    kept.push(item);
                    assert(list_value(kept@) =~= done.push(item@));
                    assert(list_value(kept@) =~= start + list_value(added@).take(n + 1));
                    n += 1;
                }
                assert(list_value(added@).take(n as int) =~= list_value(added@));
                Document::List(kept)
            },
            _ => this,
        },
        _ => other.clone_document(),
    }
}

impl Merge for Document {
    /// Merges `other` into `self`.
    fn merge(&mut self, other: Document)
        ensures
            final(self)@ == merged_document(old(self)@, other@),
    {
        let mut this = Document::Null;
        core::mem::swap(self, &mut this);
        *self = merge_into(this, &other);
    }
}

} // verus!
