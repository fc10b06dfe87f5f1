use vstd::prelude::*;
use vstd::string::*;

verus! {

/// The order in which tags are kept: lexicographic by Unicode scalar value,
/// which is the byte order of their UTF-8 encodings.
pub open spec fn tag_lt(a: Seq<char>, b: Seq<char>) -> bool
    decreases a.len(),
{
    if a.len() == 0 {
        b.len() > 0
    } else if b.len() == 0 {
        false
    } else if a[0] != b[0] {
        (a[0] as int) < (b[0] as int)
    } else {
        tag_lt(a.drop_first(), b.drop_first())
    }
}

/// No tag comes before itself.
pub proof fn lemma_tag_lt_irreflexive(a: Seq<char>)
    ensures
        !tag_lt(a, a),
    decreases a.len(),
{
    if a.len() > 0 {
        lemma_tag_lt_irreflexive(a.drop_first());
    }
}

/// The tag order is transitive.
pub proof fn lemma_tag_lt_transitive(a: Seq<char>, b: Seq<char>, c: Seq<char>)
    requires
        tag_lt(a, b),
        tag_lt(b, c),
    ensures
        tag_lt(a, c),
    decreases a.len(),
{
    if a.len() > 0 && b.len() > 0 && c.len() > 0 && a[0] == b[0] && b[0] == c[0] {
        lemma_tag_lt_transitive(a.drop_first(), b.drop_first(), c.drop_first());
    }
}

/// Two different tags are ordered one way or the other.
pub proof fn lemma_tag_lt_total(a: Seq<char>, b: Seq<char>)
    requires
        a != b,
    ensures
        tag_lt(a, b) || tag_lt(b, a),
    decreases a.len(),
{
    if a.len() > 0 && b.len() > 0 && a[0] == b[0] {
        if a.drop_first() == b.drop_first() {
            assert(a =~= seq![a[0]] + a.drop_first());
            assert(b =~= seq![b[0]] + b.drop_first());
        }
        lemma_tag_lt_total(a.drop_first(), b.drop_first());
    } else if a.len() > 0 && b.len() > 0 {
        assert((a[0] as int) != (b[0] as int));
    } else if a.len() == 0 && b.len() == 0 {
        assert(a =~= b);
    }
}

/// The outcome of comparing two tags.
#[derive(PartialEq, Eq, Structural, Clone, Copy, Debug)]
pub enum TagOrder {
    Before,
    Same,
    After,
}

/// Compares two strings in tag order.
pub fn compare_tags(a: &str, b: &str) -> (r: TagOrder)
    ensures
        r == TagOrder::Before <==> tag_lt(a@, b@),
        r == TagOrder::Same <==> a@ == b@,
        r == TagOrder::After <==> tag_lt(b@, a@),
{
    let la = a.unicode_len();
    let lb = b.unicode_len();
    let mut i: usize = 0;
    while i < la && i < lb
        invariant
            la == a@.len(),
            lb == b@.len(),
            i <= la,
            i <= lb,
            a@.take(i as int) == b@.take(i as int),
        decreases la - i,
    {
        let ca = a.get_char(i);
        let cb = b.get_char(i);
        if ca != cb {
            proof {
                lemma_tag_lt_at(a@, b@, i as int);
                lemma_tag_lt_at(b@, a@, i as int);
            }
            if (ca as u32) < (cb as u32) {
                return TagOrder::Before;
            } else {
                return TagOrder::After;
            }
        }
        proof {
            assert(a@.take(i + 1) =~= a@.take(i as int).push(ca));
            assert(b@.take(i + 1) =~= b@.take(i as int).push(cb));
        }
        i = i + 1;
    }
    proof {
        lemma_tag_lt_prefix(a@, b@, i as int);
        lemma_tag_lt_prefix(b@, a@, i as int);
    }
    if la < lb {
        TagOrder::Before
    } else if lb < la {
        TagOrder::After
    } else {
        proof {
            assert(a@ =~= a@.take(i as int));
            assert(b@ =~= b@.take(i as int));
        }
        TagOrder::Same
    }
}

/// Where two tags first differ, that character decides their order.
proof fn lemma_tag_lt_at(a: Seq<char>, b: Seq<char>, i: int)
    requires
        0 <= i < a.len(),
        i < b.len(),
        a.take(i) == b.take(i),
        a[i] != b[i],
    ensures
        tag_lt(a, b) <==> (a[i] as int) < (b[i] as int),
        a != b,
    decreases i,
{
    if i > 0 {
        assert(a[0] == a.take(i)[0]);
        assert(b[0] == b.take(i)[0]);
        assert(a.drop_first().take(i - 1) =~= a.take(i).drop_first());
        assert(b.drop_first().take(i - 1) =~= b.take(i).drop_first());
        lemma_tag_lt_at(a.drop_first(), b.drop_first(), i - 1);
        assert(a.drop_first()[i - 1] == a[i]);
    }
}

/// When one tag is a prefix of the other, the shorter comes first.
proof fn lemma_tag_lt_prefix(a: Seq<char>, b: Seq<char>, i: int)
    requires
        0 <= i <= a.len(),
        i <= b.len(),
        i == a.len() || i == b.len(),
        a.take(i) == b.take(i),
    ensures
        tag_lt(a, b) <==> a.len() < b.len(),
    decreases i,
{
    if i > 0 {
        assert(a[0] == a.take(i)[0]);
        assert(b[0] == b.take(i)[0]);
        assert(a.drop_first().take(i - 1) =~= a.take(i).drop_first());
        assert(b.drop_first().take(i - 1) =~= b.take(i).drop_first());
        lemma_tag_lt_prefix(a.drop_first(), b.drop_first(), i - 1);
    }
}

/// The texts of a sequence of strings.
pub open spec fn texts(v: Seq<String>) -> Seq<Seq<char>> {
    v.map_values(|t: String| t@)
}

/// Joins three pieces of text into a new string.
pub fn join3(first: &str, middle: &str, last: &str) -> (r: String)
    ensures
        r@ == first@ + middle@ + last@,
{
    let mut r = String::from_str(first);
    r.append(middle);
    r.append(last);
    r
}

/// Appends one character to a string.
///
/// Calls `String::push`, which (as std documents) appends the character to
/// the end of the string.
#[verifier::external_body]
pub fn push_char(s: &mut String, c: char)
    ensures
        final(s)@ == old(s)@.push(c),
{
    s.push(c);
}

/// Removes the last character of a string, if there is one.
///
/// Calls `String::pop`, which (as std documents) removes the last character
/// and returns it, or returns `None` and leaves the string alone when it is empty.
#[verifier::external_body]
pub fn pop_char(s: &mut String) -> (r: Option<char>)
    ensures
        old(s)@.len() == 0 ==> r is None && final(s)@ == old(s)@,
        old(s)@.len() > 0 ==> r == Some(old(s)@.last()) && final(s)@ == old(s)@.drop_last(),
{
    s.pop()
}

/// Text padded on the right with spaces to at least `width` characters,
/// as `format!("{:<width$}", text)` lays it out.
pub open spec fn padded(text: Seq<char>, width: nat) -> Seq<char> {
    if text.len() < width {
        text + Seq::new((width - text.len()) as nat, |i: int| ' ')
    } else {
        text
    }
}

/// Pads `text` on the right with spaces to at least `width` characters.
pub fn pad_right(text: &str, width: usize) -> (r: String)
    ensures
        r@ == padded(text@, width as nat),
{
    let mut r = String::from_str(text);
    let n = text.unicode_len();
    if n >= width {
        return r;
    }
    let mut k: usize = n;
    while k < width
        invariant
            n == text@.len(),
            n <= k <= width,
            r@ == text@ + Seq::new((k - n) as nat, |i: int| ' '),
        decreases width - k,
    {
        push_char(&mut r, ' ');
        assert(Seq::new((k + 1 - n) as nat, |i: int| ' ') =~= Seq::new((k - n) as nat, |i: int| ' ').push(' '));
        k = k + 1;
    }
    r
}

} // verus!
