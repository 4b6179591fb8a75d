//! The message template: literal substitution of a placeholder by a
//! recipient's name.
use vstd::prelude::*;
use vstd::string::StringExecFns;
use crate::text::{chars_of, opt_str_view, push_all, string_from_chars};

verus! {

/// `t` with every occurrence of `p` replaced by `n`, scanning left to right
/// without overlap. An empty `p` occurs before every character and at the end.
pub open spec fn replace_all(t: Seq<char>, p: Seq<char>, n: Seq<char>) -> Seq<char>
    decreases t.len(),
{
    if p.len() == 0 {
        if t.len() == 0 {
            n
        } else {
            n + seq![t[0]] + replace_all(t.drop_first(), p, n)
        }
    } else if t.len() < p.len() {
        t
    } else if t.subrange(0, p.len() as int) == p {
        n + replace_all(t.subrange(p.len() as int, t.len() as int), p, n)
    } else {
        seq![t[0]] + replace_all(t.drop_first(), p, n)
    }
}

/// Whether `p` occurs in `t` starting at `i`.
pub open spec fn occurs_at(t: Seq<char>, p: Seq<char>, i: int) -> bool {
    0 <= i && i + p.len() <= t.len() && t.subrange(i, i + p.len()) == p
}

/// The message for one recipient: the template with the placeholder
/// replaced by the name when both are given, else the template itself.
pub open spec fn rendered(
    template: Seq<char>,
    placeholder: Option<Seq<char>>,
    name: Option<Seq<char>>,
) -> Seq<char> {
    match (name, placeholder) {
        (Some(n), Some(p)) => replace_all(template, p, n),
        _ => template,
    }
}

fn occurs_at_exec(t: &Vec<char>, p: &Vec<char>, i: usize) -> (r: bool)
    requires
        i + p@.len() <= t@.len(),
    ensures
        r == occurs_at(t@, p@, i as int),
{
    let tl = t.len();
    let mut j: usize = 0;
    while j < p.len()
        invariant
            tl == t@.len(),
            j <= p@.len(),
            i + p@.len() <= t@.len(),
            t@.subrange(i as int, i + j) == p@.subrange(0, j as int),
        decreases p@.len() - j,
    {
        if t[i + j] != p[j] {
            assert(t@.subrange(i as int, i + p@.len())[j as int] != p@[j as int]);
            return false;
        }
        assert(t@.subrange(i as int, i + j + 1) =~= p@.subrange(0, j + 1));
        j = j + 1;
    }
    assert(p@.subrange(0, p@.len() as int) =~= p@);
    true
}

/// `t` with every occurrence of `p` replaced by `n`.
pub fn replace_chars(t: &Vec<char>, p: &Vec<char>, n: &Vec<char>) -> (r: Vec<char>)
    ensures
        r@ == replace_all(t@, p@, n@),
{
    let mut out: Vec<char> = Vec::new();
    let mut i: usize = 0;
    assert(t@.subrange(0, t@.len() as int) =~= t@);
    assert(out@ + replace_all(t@, p@, n@) =~= replace_all(t@, p@, n@));
    if p.len() == 0 {
        while i < t.len()
            invariant
                p@.len() == 0,
                i <= t@.len(),
                out@ + replace_all(t@.subrange(i as int, t@.len() as int), p@, n@) == replace_all(
                    t@,
                    p@,
                    n@,
                ),
            decreases t@.len() - i,
        {
            let ghost rest = t@.subrange(i as int, t@.len() as int);
            assert(rest.drop_first() =~= t@.subrange(i + 1, t@.len() as int));
            let ghost old_out = out@;
            push_all(&mut out, n);
            out.push(t[i]);
            assert(out@ + replace_all(rest.drop_first(), p@, n@) =~= old_out + replace_all(
                rest,
                p@,
                n@,
            ));
            i = i + 1;
        }
        push_all(&mut out, n);
        assert(t@.subrange(i as int, t@.len() as int) =~= Seq::<char>::empty());
    } else {
        while i < t.len()
            invariant
                p@.len() > 0,
                i <= t@.len(),
                out@ + replace_all(t@.subrange(i as int, t@.len() as int), p@, n@) == replace_all(
                    t@,
                    p@,
                    n@,
                ),
            decreases t@.len() - i,
        {
            let ghost rest = t@.subrange(i as int, t@.len() as int);
            let ghost old_out = out@;
            if p.len() <= t.len() - i && occurs_at_exec(t, p, i) {
                assert(rest.subrange(0, p@.len() as int) =~= t@.subrange(i as int, i + p@.len()));
                assert(rest.subrange(p@.len() as int, rest.len() as int) =~= t@.subrange(
                    i + p@.len(),
                    t@.len() as int,
                ));
                push_all(&mut out, n);
                assert(out@ + replace_all(t@.subrange(i + p@.len(), t@.len() as int), p@, n@)
                    =~= old_out + replace_all(rest, p@, n@));
                i = i + p.len();
            } else {
                assert(rest.drop_first() =~= t@.subrange(i + 1, t@.len() as int));
                proof {
                    if rest.len() >= p@.len() {
                        assert(rest.subrange(0, p@.len() as int) =~= t@.subrange(
                            i as int,
                            i + p@.len(),
                        ));
                    } else {
                        assert(rest =~= seq![rest[0]] + rest.drop_first());
                    }
                }
                out.push(t[i]);
                assert(out@ + replace_all(rest.drop_first(), p@, n@) =~= old_out + (seq![rest[0]]
                    + replace_all(rest.drop_first(), p@, n@)));
                i = i + 1;
            }
        }
        assert(t@.subrange(i as int, t@.len() as int) =~= Seq::<char>::empty());
    }
    assert(out@ + Seq::<char>::empty() =~= out@);
    out
}

/// The message for one recipient: with a name and a placeholder, every
/// occurrence of the placeholder in the template becomes the name;
/// otherwise the template is sent as it is.
pub fn render_message(template: &str, placeholder: Option<&str>, name: Option<&str>) -> (r: String)
    ensures
        r@ == rendered(template@, opt_str_view(placeholder), opt_str_view(name)),
{
    match (name, placeholder) {
        (Some(n), Some(p)) => {
            let out = replace_chars(&chars_of(template), &chars_of(p), &chars_of(n));
            string_from_chars(&out)
        },
        _ => String::from_str(template),
    }
}

/// Without a placeholder, or for a recipient without a name, the message is
/// the template verbatim.
pub proof fn lemma_render_without_substitution(
    template: Seq<char>,
    placeholder: Option<Seq<char>>,
    name: Option<Seq<char>>,
)
    requires
        placeholder is None || name is None,
    ensures
        rendered(template, placeholder, name) == template,
{
}

/// A template in which the placeholder does not occur is left unchanged.
pub proof fn lemma_replace_without_occurrence(t: Seq<char>, p: Seq<char>, n: Seq<char>)
    requires
        p.len() > 0,
        forall|i: int| !occurs_at(t, p, i),
    ensures
        replace_all(t, p, n) == t,
    decreases t.len(),
{
    if t.len() >= p.len() {
        assert(!occurs_at(t, p, 0));
        assert(t.subrange(0, p.len() as int) != p);
        let rest = t.drop_first();
        assert forall|i: int| !occurs_at(rest, p, i) by {
            if occurs_at(rest, p, i) {
                assert(t.subrange(i + 1, i + 1 + p.len()) =~= rest.subrange(i, i + p.len()));
                assert(occurs_at(t, p, i + 1));
            }
        }
        lemma_replace_without_occurrence(rest, p, n);
        assert(t =~= seq![t[0]] + rest);
    }
}

/// Replacement works piece by piece: text before the first occurrence is
/// kept, the occurrence becomes the name, and the rest is replaced in turn.
pub proof fn lemma_replace_splits(a: Seq<char>, p: Seq<char>, n: Seq<char>, b: Seq<char>)
    requires
        p.len() > 0,
        forall|i: int| 0 <= i <= a.len() - 1 ==> !occurs_at(a + p, p, i),
    ensures
        replace_all(a + p + b, p, n) == a + n + replace_all(b, p, n),
    decreases a.len(),
{
    let t = a + p + b;
    if a.len() == 0 {
        assert(t.subrange(0, p.len() as int) =~= p);
        assert(t.subrange(p.len() as int, t.len() as int) =~= b);
        assert(a + n =~= n);
    } else {
        assert(!occurs_at(a + p, p, 0));
        assert(t.subrange(0, p.len() as int) =~= (a + p).subrange(0, p.len() as int));
        let a2 = a.drop_first();
        assert forall|i: int| 0 <= i <= a2.len() - 1 implies !occurs_at(a2 + p, p, i) by {
            if occurs_at(a2 + p, p, i) {
                assert((a + p).subrange(i + 1, i + 1 + p.len()) =~= (a2 + p).subrange(i, i + p.len()));
                assert(occurs_at(a + p, p, i + 1));
            }
        }
        lemma_replace_splits(a2, p, n, b);
        assert(t.drop_first() =~= a2 + p + b);
        assert(a + n + replace_all(b, p, n) =~= seq![a[0]] + (a2 + n + replace_all(b, p, n)));
    }
}

} // verus!
