//! Paths as sequences of components, and the normal form of a textual path.

use crate::error::{Error, ErrorView};
use vstd::prelude::*;
use vstd::string::*;

verus! {

/// A path in contracts: its components in order, each a text without `/`.
pub type PathView = Seq<Seq<char>>;

/// Whether `c` is one of the letters `a` to `z` or `A` to `Z`.
pub open spec fn is_ascii_letter(c: char) -> bool {
    ('a' <= c && c <= 'z') || ('A' <= c && c <= 'Z')
}

/// Whether the text begins with a drive designator: a letter, then `:`.
pub open spec fn starts_with_drive(text: Seq<char>) -> bool {
    text.len() >= 2 && is_ascii_letter(text[0]) && text[1] == ':'
}

/// Whether the text is refused as a path: paths have prefixes on the
/// platform, and the text begins with one. Where `prefixes` is `false` no
/// text is refused.
pub open spec fn is_refused(text: Seq<char>, prefixes: bool) -> bool {
    prefixes && starts_with_drive(text)
}

/// The index of the first `/` in `text`, or its length where it has none.
pub open spec fn first_separator(text: Seq<char>) -> nat
    decreases text.len(),
{
    if text.len() == 0 || text[0] == '/' {
        0
    } else {
        1 + first_separator(text.skip(1))
    }
}

/// Whether the segment is `.`, which stands for the directory itself.
pub open spec fn is_dot(segment: Seq<char>) -> bool {
    segment.len() == 1 && segment[0] == '.'
}

/// Whether the segment is `..`, which stands for the directory above.
pub open spec fn is_dot_dot(segment: Seq<char>) -> bool {
    segment.len() == 2 && segment[0] == '.' && segment[1] == '.'
}

/// What one segment between separators does to the components read so far:
/// an empty segment and `.` change nothing, `..` removes the last component
/// if there is one, any other segment is added.
pub open spec fn push_segment(done: PathView, segment: Seq<char>) -> PathView {
    if segment.len() == 0 || is_dot(segment) {
        done
    } else if is_dot_dot(segment) {
        if done.len() > 0 {
            done.drop_last()
        } else {
            done
        }
    } else {
        done.push(segment)
    }
}

/// The components that `text` adds to `done`, segment by segment.
pub open spec fn normalize_onto(done: PathView, text: Seq<char>) -> PathView
    decreases text.len(),
{
    let k = first_separator(text) as int;
    let next = push_segment(done, text.take(k));
    if k >= text.len() {
        next
    } else {
        normalize_onto(next, text.skip(k + 1))
    }
}

/// The normal form of a textual path: no root, no `.`, every `..` resolved
/// against what precedes it and dropped at the top.
pub open spec fn normalized(text: Seq<char>) -> PathView {
    normalize_onto(Seq::empty(), text)
}

/// `first_separator` is the one index before which no `/` stands and at
/// which one does, or the text ends.
pub proof fn lemma_first_separator(text: Seq<char>, k: int)
    requires
        0 <= k <= text.len(),
        forall|j: int| 0 <= j < k ==> text[j] != '/',
        k < text.len() ==> text[k] == '/',
    ensures
        first_separator(text) == k,
    decreases text.len(),
{
    if k > 0 {
        lemma_first_separator(text.skip(1), k - 1);
    }
}

/// Whether a path is in normal form: it holds no empty component, no `.`,
/// no `..`, and no component with a `/` in it.
pub open spec fn is_normal(path: PathView) -> bool {
    forall|i: int|
        0 <= i < path.len() ==> {
            &&& (#[trigger] path[i]).len() > 0
            &&& !is_dot(path[i])
            &&& !is_dot_dot(path[i])
            &&& !path[i].contains('/')
        }
}

/// Before the index that `first_separator` gives no `/` stands, and at it,
/// if the text goes on, one does.
pub proof fn lemma_first_separator_divides(text: Seq<char>)
    ensures
        first_separator(text) <= text.len(),
        forall|j: int| 0 <= j < first_separator(text) ==> text[j] != '/',
        first_separator(text) < text.len() ==> text[first_separator(text) as int] == '/',
    decreases text.len(),
{
    if !(text.len() == 0 || text[0] == '/') {
        let rest = text.skip(1);
        lemma_first_separator_divides(rest);
        assert forall|j: int| 0 <= j < first_separator(text) implies text[j] != '/' by {
            if j > 0 {
                assert(text[j] == rest[j - 1]);
            }
        }
    }
}

/// What a text adds to a path in normal form leaves the path in normal
/// form.
pub proof fn lemma_normalize_onto_normal(done: PathView, text: Seq<char>)
    requires
        is_normal(done),
    ensures
        is_normal(normalize_onto(done, text)),
    decreases text.len(),
{
    let k = first_separator(text) as int;
    lemma_first_separator_divides(text);
    let segment = text.take(k);
    let next = push_segment(done, segment);
    assert(!segment.contains('/')) by {
        if segment.contains('/') {
            let j = choose|j: int| 0 <= j < segment.len() && segment[j] == '/';
            assert(text[j] == '/');
        }
    }
    assert(is_normal(next)) by {
        assert forall|i: int| 0 <= i < next.len() implies {
            &&& (#[trigger] next[i]).len() > 0
            &&& !is_dot(next[i])
            &&& !is_dot_dot(next[i])
            &&& !next[i].contains('/')
        } by {
            if i < done.len() {
                assert(next[i] == done[i]);
            }
        }
    }
    if k < text.len() {
        lemma_normalize_onto_normal(next, text.skip(k + 1));
    }
}

/// The normal form of any text is in normal form.
pub proof fn lemma_normalized_is_normal(text: Seq<char>)
    ensures
        is_normal(normalized(text)),
{
    lemma_normalize_onto_normal(Seq::empty(), text);
}

/// The text of a path: its components with a `/` between each two.
pub open spec fn joined(path: PathView) -> Seq<char>
    decreases path.len(),
{
    if path.len() == 0 {
        Seq::empty()
    } else if path.len() == 1 {
        path[0]
    } else {
        path[0] + seq!['/'] + joined(path.skip(1))
    }
}

/// The text of a path in normal form adds exactly that path to what was
/// read before it.
pub proof fn lemma_normalize_onto_joined(done: PathView, path: PathView)
    requires
        is_normal(path),
    ensures
        normalize_onto(done, joined(path)) == done + path,
    decreases path.len(),
{
    let text = joined(path);
    if path.len() == 0 {
        assert(text.take(0) =~= Seq::empty());
        assert(done + path =~= done);
    } else {
        let first = path[0];
        assert(first.len() > 0 && !is_dot(first) && !is_dot_dot(first) && !first.contains('/'));
        assert forall|j: int| 0 <= j < first.len() implies text[j] != '/' by {
            assert(text[j] == first[j]);
            if first[j] == '/' {
                assert(first.contains('/'));
            }
        }
        if path.len() == 1 {
            lemma_first_separator(text, first.len() as int);
            assert(text.take(first.len() as int) =~= first);
            assert(done + path =~= done.push(first));
        } else {
            let rest = path.skip(1);
            assert(text[first.len() as int] == '/');
            lemma_first_separator(text, first.len() as int);
            assert(text.take(first.len() as int) =~= first);
            assert(text.skip(first.len() as int + 1) =~= joined(rest));
            assert(is_normal(rest)) by {
                assert forall|i: int| 0 <= i < rest.len() implies {
                    &&& (#[trigger] rest[i]).len() > 0
                    &&& !is_dot(rest[i])
                    &&& !is_dot_dot(rest[i])
                    &&& !rest[i].contains('/')
                } by {
                    assert(rest[i] == path[i + 1]);
                }
            }
            lemma_normalize_onto_joined(done.push(first), rest);
            assert(done.push(first) + rest =~= done + path);
        }
    }
}

/// Normalizing is idempotent: the text of a path in normal form has that
/// path as its normal form, and so has the text of the normal form of any
/// text.
pub proof fn lemma_normalized_idempotent(text: Seq<char>)
    ensures
        normalized(joined(normalized(text))) == normalized(text),
{
    lemma_normalized_is_normal(text);
    lemma_normalize_onto_joined(Seq::empty(), normalized(text));
    assert(Seq::<Seq<char>>::empty() + normalized(text) =~= normalized(text));
}

/// Applies one segment to the components read so far.
fn push_component(out: &mut Vec<String>, segment: &str)
    ensures
        final(out).deep_view() == push_segment(old(out).deep_view(), segment@),
{
    let n = segment.unicode_len();
    let dots: bool = if n == 1 {
        segment.get_char(0) == '.'
    } else if n == 2 {
        segment.get_char(0) == '.' && segment.get_char(1) == '.'
    } else {
        false
    };
    if n == 0 || (n == 1 && dots) {
    } else if n == 2 && dots {
        if out.len() > 0 {
            out.pop();
            assert(out.deep_view() =~= old(out).deep_view().drop_last());
        }
    } else {
        out.push(segment.to_owned());
        assert(out.deep_view() =~= old(out).deep_view().push(segment@));
    }
}

/// Brings a textual path into normal form.
///
/// `prefixes` says whether paths have prefixes on the platform, as drive
/// designators are. Where they have, a text that begins with one is
/// refused: it is never a relative fragment. Any other text gives its
/// components, without the root and without `.`, and with each `..`
/// resolved against the component before it, or dropped where there is
/// none.
pub fn normalize_path(path: &str, prefixes: bool) -> (r: Result<Vec<String>, Error>)
    ensures
        is_refused(path@, prefixes) ==> r is Err && r->Err_0@ == ErrorView::InvalidPath(path@),
        !is_refused(path@, prefixes) ==> r is Ok && r->Ok_0.deep_view() == normalized(path@),
        r is Ok ==> is_normal(r->Ok_0.deep_view()),
{
    proof {
        lemma_normalized_is_normal(path@);
    }
    let n = path.unicode_len();
    if prefixes && n >= 2 {
        let c0 = path.get_char(0);
        let c1 = path.get_char(1);
        if (('a' <= c0 && c0 <= 'z') || ('A' <= c0 && c0 <= 'Z')) && c1 == ':' {
            return Err(Error::InvalidPath(path.to_owned()));
        }
    }
    let mut out: Vec<String> = Vec::new();
    let mut start: usize = 0;
    let mut i: usize = 0;
    assert(out.deep_view() =~= Seq::<Seq<char>>::empty());
    assert(path@.skip(0) =~= path@);
    while i < n
        invariant
            n == path@.len(),
            start <= i <= n,
            forall|j: int| start <= j < i ==> path@[j] != '/',
            normalize_onto(out.deep_view(), path@.skip(start as int)) == normalized(path@),
        decreases n - i,
    {
        if path.get_char(i) == '/' {
            let segment = path.substring_char(start, i);
            proof {
                let rest = path@.skip(start as int);
                lemma_first_separator(rest, i - start);
                assert(rest.take(i - start) =~= path@.subrange(start as int, i as int));
                assert(rest.skip(i - start + 1) =~= path@.skip(i + 1));
            }
            push_component(&mut out, segment);
            start = i + 1;
        }
        i += 1;
    }
    let segment = path.substring_char(start, n);
    proof {
        let rest = path@.skip(start as int);
        lemma_first_separator(rest, n - start);
        assert(rest.take(n - start) =~= path@.subrange(start as int, n as int));
    }
    push_component(&mut out, segment);
    Ok(out)
}

/// Whether the text `a` comes before the text `b`: at the first place where
/// they differ `a` has the lesser character, or `a` ends there and `b` does
/// not.
pub open spec fn text_lt(a: Seq<char>, b: Seq<char>) -> bool
    decreases a.len(),
{
    if b.len() == 0 {
        false
    } else if a.len() == 0 {
        true
    } else if a[0] != b[0] {
        a[0] < b[0]
    } else {
        text_lt(a.skip(1), b.skip(1))
    }
}

/// Whether the path `a` comes before the path `b`: at the first place where
/// they differ `a` has the lesser component, or `a` ends there and `b` does
/// not.
pub open spec fn path_lt(a: PathView, b: PathView) -> bool
    decreases a.len(),
{
    if b.len() == 0 {
        false
    } else if a.len() == 0 {
        true
    } else if a[0] != b[0] {
        text_lt(a[0], b[0])
    } else {
        path_lt(a.skip(1), b.skip(1))
    }
}

/// What two texts begin with alike does not decide which comes first: the
/// order is that of what follows it.
pub proof fn lemma_text_lt_after_common(a: Seq<char>, b: Seq<char>, k: int)
    requires
        0 <= k <= a.len(),
        k <= b.len(),
        forall|j: int| 0 <= j < k ==> a[j] == b[j],
    ensures
        text_lt(a, b) == text_lt(a.skip(k), b.skip(k)),
    decreases k,
{
    if k == 0 {
        assert(a.skip(0) =~= a);
        assert(b.skip(0) =~= b);
    } else {
        lemma_text_lt_after_common(a.skip(1), b.skip(1), k - 1);
        assert(a.skip(1).skip(k - 1) =~= a.skip(k));
        assert(b.skip(1).skip(k - 1) =~= b.skip(k));
    }
}

/// The components that two paths begin with alike do not decide which
/// comes first: the order is that of what follows them.
pub proof fn lemma_path_lt_after_common(a: PathView, b: PathView, k: int)
    requires
        0 <= k <= a.len(),
        k <= b.len(),
        forall|j: int| 0 <= j < k ==> a[j] == b[j],
    ensures
        path_lt(a, b) == path_lt(a.skip(k), b.skip(k)),
    decreases k,
{
    if k == 0 {
        assert(a.skip(0) =~= a);
        assert(b.skip(0) =~= b);
    } else {
        lemma_path_lt_after_common(a.skip(1), b.skip(1), k - 1);
        assert(a.skip(1).skip(k - 1) =~= a.skip(k));
        assert(b.skip(1).skip(k - 1) =~= b.skip(k));
    }
}

/// Of two texts neither comes before the other, or exactly one does.
pub proof fn lemma_text_lt_asymmetric(a: Seq<char>, b: Seq<char>)
    ensures
        !(text_lt(a, b) && text_lt(b, a)),
    decreases a.len(),
{
    if a.len() > 0 && b.len() > 0 && a[0] == b[0] {
        lemma_text_lt_asymmetric(a.skip(1), b.skip(1));
    }
}

/// Of two different texts one comes before the other.
pub proof fn lemma_text_lt_total(a: Seq<char>, b: Seq<char>)
    requires
        a != b,
    ensures
        text_lt(a, b) || text_lt(b, a),
    decreases a.len(),
{
    if a.len() > 0 && b.len() > 0 && a[0] == b[0] {
        if a.skip(1) == b.skip(1) {
            assert(a =~= seq![a[0]] + a.skip(1));
            assert(b =~= seq![b[0]] + b.skip(1));
        }
        lemma_text_lt_total(a.skip(1), b.skip(1));
    } else if a.len() == 0 && b.len() == 0 {
        assert(a =~= b);
    }
}

/// A text that comes before another comes before any third text, or the
/// third comes before the other.
pub proof fn lemma_text_lt_between(a: Seq<char>, b: Seq<char>, c: Seq<char>)
    requires
        text_lt(a, c),
    ensures
        text_lt(a, b) || text_lt(b, c),
    decreases a.len(),
{
    if b.len() > 0 && a.len() > 0 && a[0] == c[0] && b[0] == a[0] {
        lemma_text_lt_between(a.skip(1), b.skip(1), c.skip(1));
    }
}

/// Of two paths neither comes before the other, or exactly one does.
pub proof fn lemma_path_lt_asymmetric(a: PathView, b: PathView)
    ensures
        !(path_lt(a, b) && path_lt(b, a)),
    decreases a.len(),
{
    if a.len() > 0 && b.len() > 0 {
        if a[0] == b[0] {
            lemma_path_lt_asymmetric(a.skip(1), b.skip(1));
        } else {
            lemma_text_lt_asymmetric(a[0], b[0]);
        }
    }
}

/// Of two different paths one comes before the other.
pub proof fn lemma_path_lt_total(a: PathView, b: PathView)
    requires
        a != b,
    ensures
        path_lt(a, b) || path_lt(b, a),
    decreases a.len(),
{
    if a.len() > 0 && b.len() > 0 {
        if a[0] == b[0] {
            if a.skip(1) == b.skip(1) {
                assert(a =~= seq![a[0]] + a.skip(1));
                assert(b =~= seq![b[0]] + b.skip(1));
            }
            lemma_path_lt_total(a.skip(1), b.skip(1));
        } else {
            lemma_text_lt_total(a[0], b[0]);
        }
    } else if a.len() == 0 && b.len() == 0 {
        assert(a =~= b);
    }
}

/// A path that comes before another comes before any third path, or the
/// third comes before the other.
pub proof fn lemma_path_lt_between(a: PathView, b: PathView, c: PathView)
    requires
        path_lt(a, c),
    ensures
        path_lt(a, b) || path_lt(b, c),
    decreases a.len(),
{
    if b.len() > 0 && a.len() > 0 {
        if a[0] == c[0] {
            if b[0] == a[0] {
                lemma_path_lt_between(a.skip(1), b.skip(1), c.skip(1));
            } else {
                lemma_text_lt_total(a[0], b[0]);
            }
        } else {
            lemma_text_lt_between(a[0], b[0], c[0]);
        }
    }
}

/// Whether the text `a` comes before the text `b`.
pub fn text_before(a: &str, b: &str) -> (r: bool)
    ensures
        r == text_lt(a@, b@),
{
    let n = a.unicode_len();
    let m = b.unicode_len();
    let mut i: usize = 0;
    assert(a@.skip(0) =~= a@);
    assert(b@.skip(0) =~= b@);
    while i < n && i < m
        invariant
            n == a@.len(),
            m == b@.len(),
            i <= n,
            i <= m,
            text_lt(a@, b@) == text_lt(a@.skip(i as int), b@.skip(i as int)),
        decreases n - i,
    {
        let x = a.get_char(i);
        let y = b.get_char(i);
        assert(a@.skip(i as int)[0] == x);
        assert(b@.skip(i as int)[0] == y);
        if x != y {
            return x < y;
        }
        assert(a@.skip(i as int).skip(1) =~= a@.skip(i + 1));
        assert(b@.skip(i as int).skip(1) =~= b@.skip(i + 1));
        i += 1;
    }
    i < m
}

/// Whether the path `a` comes before the path `b`.
pub fn path_before(a: &Vec<String>, b: &Vec<String>) -> (r: bool)
    ensures
        r == path_lt(a.deep_view(), b.deep_view()),
{
    let ghost av = a.deep_view();
    let ghost bv = b.deep_view();
    let mut i: usize = 0;
    assert(av.skip(0) =~= av);
    assert(bv.skip(0) =~= bv);
    while i < a.len() && i < b.len()
        invariant
            av == a.deep_view(),
            bv == b.deep_view(),
            i <= a.len(),
            i <= b.len(),
            path_lt(av, bv) == path_lt(av.skip(i as int), bv.skip(i as int)),
        decreases a.len() - i,
    {
        assert(av.skip(i as int)[0] == a[i as int]@);
        assert(bv.skip(i as int)[0] == b[i as int]@);
        if a[i] != b[i] {
            return text_before(a[i].as_str(), b[i].as_str());
        }
        assert(av.skip(i as int).skip(1) =~= av.skip(i + 1));
        assert(bv.skip(i as int).skip(1) =~= bv.skip(i + 1));
        i += 1;
    }
    i < b.len()
}

/// Adds one text at the end of a list of texts.
pub fn push_text(list: &mut Vec<String>, text: String)
    ensures
        final(list).deep_view() == old(list).deep_view().push(text@),
{
    list.push(text);
    assert(list.deep_view() =~= old(list).deep_view().push(text@));
}

/// A copy of the path.
pub fn clone_path(path: &Vec<String>) -> (r: Vec<String>)
    ensures
        r.deep_view() == path.deep_view(),
{
    let mut out: Vec<String> = Vec::new();
    let mut i: usize = 0;
    while i < path.len()
        invariant
            i <= path.len(),
            out.deep_view() == path.deep_view().take(i as int),
        decreases path.len() - i,
    {
        push_text(&mut out, path[i].clone());
        assert(out.deep_view() =~= path.deep_view().take(i + 1));
        i += 1;
    }
    assert(path.deep_view().take(i as int) =~= path.deep_view());
    out
}

/// The path `base` followed by the components of `rest`.
pub fn join(base: &Vec<String>, rest: &Vec<String>) -> (r: Vec<String>)
    ensures
        r.deep_view() == base.deep_view() + rest.deep_view(),
{
    let mut out = clone_path(base);
    let mut i: usize = 0;
    while i < rest.len()
        invariant
            i <= rest.len(),
            out.deep_view() == base.deep_view() + rest.deep_view().take(i as int),
        decreases rest.len() - i,
    {
        push_text(&mut out, rest[i].clone());
        assert(out.deep_view() =~= base.deep_view() + rest.deep_view().take(i + 1));
        i += 1;
    }
    assert(rest.deep_view().take(i as int) =~= rest.deep_view());
    out
}

/// Whether two paths have the same components.
pub fn same_path(a: &Vec<String>, b: &Vec<String>) -> (r: bool)
    ensures
        r == (a.deep_view() == b.deep_view()),
{
    if a.len() != b.len() {
        return false;
    }
    let mut i: usize = 0;
    while i < a.len()
        invariant
            i <= a.len(),
            a.len() == b.len(),
            a.deep_view().take(i as int) == b.deep_view().take(i as int),
        decreases a.len() - i,
    {
        if a[i] != b[i] {
            assert(a.deep_view()[i as int] != b.deep_view()[i as int]);
            return false;
        }
        assert(a.deep_view().take(i + 1) =~= a.deep_view().take(i as int).push(a[i as int]@));
        assert(b.deep_view().take(i + 1) =~= b.deep_view().take(i as int).push(b[i as int]@));
        i += 1;
    }
    assert(a.deep_view().take(i as int) =~= a.deep_view());
    assert(b.deep_view().take(i as int) =~= b.deep_view());
    true
}

} // verus!
