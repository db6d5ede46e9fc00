//! Paths as texts: components joined by `/`.

use vstd::prelude::*;
use vstd::std_specs::iter::IteratorSpec;

verus! {

broadcast use vstd::string::group_string_axioms;

/// `parent`, a `/`, then `child`.
pub open spec fn joined(parent: Seq<char>, child: Seq<char>) -> Seq<char> {
    parent + seq!['/'] + child
}

/// Joins two path components with a `/`.
pub fn join(parent: &str, child: &str) -> (path: String)
    ensures
        path@ == joined(parent@, child@),
{
    let mut path = String::from_str(parent);
    path.append("/");
    path.append(child);
    proof {
        reveal_strlit("/");
        assert("/"@ =~= seq!['/']);
    }
    path
}

/// The characters of a text, one by one.
pub fn chars_of(text: &str) -> (chars: Vec<char>)
    ensures
        chars@ == text@,
{
    let n = text.unicode_len();
    let mut chars: Vec<char> = Vec::new();
    let mut rest = text.chars();
    loop
        invariant
            n == text@.len(),
            chars@.len() <= n,
            rest.obeys_prophetic_iter_laws(),
            chars@ == text@.take(chars@.len() as int),
            rest.remaining() == text@.skip(chars@.len() as int),
        ensures
            chars@ == text@,
        decreases n - chars@.len(),
    {
        let ghost done = chars@.len() as int;
        match rest.next() {
            Some(c) => {
                chars.push(c);
                proof {
                    assert(text@.skip(done).drop_first() == text@.skip(done + 1));
                    assert(text@.take(done + 1) == text@.take(done).push(c));
                }
            },
            None => {
                assert(text@.take(done) == text@);
                break ;
            },
        }
    }
    chars
}

/// `s` holds no `/`.
pub open spec fn is_single_segment(s: Seq<char>) -> bool {
    forall|i: int| 0 <= i < s.len() ==> #[trigger] s[i] != '/'
}

/// Position of the first `/` in `s`, or the length of `s` if it holds none.
pub open spec fn first_slash(s: Seq<char>) -> int
    decreases s.len(),
{
    if s.len() == 0 || s.first() == '/' {
        0
    } else {
        1 + first_slash(s.drop_first())
    }
}

/// The part of `s` behind its last `/`, or all of `s` if it holds none.
pub open spec fn last_segment(s: Seq<char>) -> Seq<char>
    decreases s.len(),
{
    if s.len() == 0 || s.last() == '/' {
        Seq::empty()
    } else {
        last_segment(s.drop_last()).push(s.last())
    }
}

/// The first `/` stands where no `/` comes before and a `/`, or the end of
/// the text, is found.
pub proof fn lemma_first_slash_is_at(s: Seq<char>, at: int)
    requires
        0 <= at <= s.len(),
        is_single_segment(s.take(at)),
        at == s.len() || s[at] == '/',
    ensures
        first_slash(s) == at,
    decreases at,
{
    if at > 0 {
        assert(s.take(at)[0] != '/');
        let rest = s.drop_first();
        assert forall|i: int| 0 <= i < at - 1 implies #[trigger] rest.take(at - 1)[i] != '/' by {
            assert(s.take(at)[i + 1] != '/');
        }
        lemma_first_slash_is_at(rest, at - 1);
    }
}

/// No `/` comes before the first `/`.
pub proof fn lemma_first_slash_is_single(s: Seq<char>)
    ensures
        0 <= first_slash(s) <= s.len(),
        is_single_segment(s.take(first_slash(s))),
        first_slash(s) < s.len() ==> s[first_slash(s)] == '/',
    decreases s.len(),
{
    if s.len() > 0 && s.first() != '/' {
        let rest = s.drop_first();
        lemma_first_slash_is_single(rest);
        let at = first_slash(s);
        assert forall|i: int| 0 <= i < at implies #[trigger] s.take(at)[i] != '/' by {
            if i > 0 {
                assert(rest.take(at - 1)[i - 1] == s.take(at)[i]);
            }
        }
    }
}

/// Behind a run of characters without `/`, the first `/` is that of the
/// text that follows.
pub proof fn lemma_first_slash_skips(head: Seq<char>, tail: Seq<char>)
    requires
        is_single_segment(head),
    ensures
        first_slash(head + tail) == head.len() + first_slash(tail),
        0 <= first_slash(tail) <= tail.len(),
    decreases head.len() + tail.len(),
{
    if head.len() > 0 {
        let whole = head + tail;
        assert(whole.first() == head[0]);
        assert(whole.drop_first() =~= head.drop_first() + tail);
        lemma_first_slash_skips(head.drop_first(), tail);
    } else {
        assert(head + tail =~= tail);
        if tail.len() > 0 && tail.first() != '/' {
            lemma_first_slash_skips(head, tail.drop_first());
            assert(head + tail.drop_first() =~= tail.drop_first());
        }
    }
}

/// A text that holds a `/` keeps its first `/` where it is when more text
/// is put behind it.
pub proof fn lemma_first_slash_within(head: Seq<char>, tail: Seq<char>)
    requires
        first_slash(head) < head.len(),
    ensures
        first_slash(head + tail) == first_slash(head),
{
    lemma_first_slash_is_single(head);
    let at = first_slash(head);
    let whole = head + tail;
    assert(whole.take(at) =~= head.take(at));
    assert(whole[at] == head[at]);
    lemma_first_slash_is_at(whole, at);
}

/// Behind a text, a run of characters without `/` extends the last segment.
pub proof fn lemma_last_segment_extends(head: Seq<char>, tail: Seq<char>)
    requires
        is_single_segment(tail),
    ensures
        last_segment(head + tail) == last_segment(head) + tail,
    decreases tail.len(),
{
    if tail.len() == 0 {
        assert(head + tail =~= head);
        assert(last_segment(head) + tail =~= last_segment(head));
    } else {
        let whole = head + tail;
        assert(whole.last() == tail.last());
        assert(whole.drop_last() =~= head + tail.drop_last());
        lemma_last_segment_extends(head, tail.drop_last());
        assert(last_segment(head) + tail =~= (last_segment(head) + tail.drop_last()).push(
            tail.last(),
        ));
    }
}

/// The last segment of any text holds no `/`.
pub proof fn lemma_last_segment_is_single(s: Seq<char>)
    ensures
        is_single_segment(last_segment(s)),
    decreases s.len(),
{
    if s.len() > 0 && s.last() != '/' {
        lemma_last_segment_is_single(s.drop_last());
    }
}

/// Finds the first `/` at or behind the position `from`: its position, or
/// the length of the text if there is none.
pub fn find_slash(chars: &Vec<char>, from: usize) -> (at: usize)
    requires
        from <= chars@.len(),
    ensures
        from <= at <= chars@.len(),
        at == from + first_slash(chars@.skip(from as int)),
{
    let mut at = from;
    while at < chars.len() && chars[at] != '/'
        invariant
            from <= at <= chars@.len(),
            forall|k: int| from <= k < at ==> chars@[k] != '/',
        decreases chars@.len() - at,
    {
        at = at + 1;
    }
    proof {
        let behind = chars@.skip(from as int);
        assert forall|i: int| 0 <= i < at - from implies #[trigger] behind.take(at - from)[i]
            != '/' by {
            assert(behind.take(at - from)[i] == chars@[from + i]);
        }
        lemma_first_slash_is_at(behind, at - from);
    }
    at
}

/// Finds where the last segment of the text behind `from` begins.
pub fn find_last_segment(chars: &Vec<char>, from: usize) -> (start: usize)
    requires
        from <= chars@.len(),
    ensures
        from <= start <= chars@.len(),
        chars@.skip(start as int) == last_segment(chars@.skip(from as int)),
{
    let ghost behind = chars@.skip(from as int);
    let mut start = from;
    let mut i = from;
    while i < chars.len()
        invariant
            from <= start <= i <= chars@.len(),
            behind == chars@.skip(from as int),
            chars@.subrange(start as int, i as int) == last_segment(behind.take(i - from)),
        decreases chars@.len() - i,
    {
        proof {
            let before = behind.take(i - from);
            let now = behind.take(i - from + 1);
            assert(now.drop_last() == before);
            assert(now.last() == chars@[i as int]);
        }
        if chars[i] == '/' {
            start = i + 1;
        }
        i = i + 1;
    }
    assert(behind.take(i - from) == behind);
    assert(chars@.skip(start as int) == chars@.subrange(start as int, i as int));
    start
}

} // verus!
