//! Paths as slash-separated text: joining and final components.

use vstd::prelude::*;
use vstd::string::*;

verus! {

/// `tail` adjoined to `base`: an absolute `tail` replaces `base`, and a
/// separator is put between the two unless `base` is empty or ends in one.
pub open spec fn spec_join(base: Seq<char>, tail: Seq<char>) -> Seq<char> {
    if tail.len() > 0 && tail[0] == '/' {
        tail
    } else if base.len() == 0 || base.last() == '/' {
        base + tail
    } else {
        base + seq!['/'] + tail
    }
}

/// Where the final component of `path` starts: just behind its last separator.
pub open spec fn final_start(path: Seq<char>) -> nat
    decreases path.len(),
{
    if path.len() == 0 || path.last() == '/' {
        path.len()
    } else {
        final_start(path.drop_last())
    }
}

/// The text behind the last separator of `path`.
pub open spec fn final_component(path: Seq<char>) -> Seq<char> {
    path.subrange(final_start(path) as int, path.len() as int)
}

/// The file name of `path`: its final component, once trailing separators and
/// trailing `.` components are set aside. A path that ends in `..`, or that
/// holds nothing but separators and a leading `.`, has none.
pub open spec fn spec_file_name(path: Seq<char>) -> Option<Seq<char>>
    decreases path.len(),
{
    if path.len() == 0 {
        None
    } else {
        let last = final_component(path);
        if last.len() == 0 {
            spec_file_name(path.drop_last())
        } else if last == seq!['.'] {
            if last.len() == path.len() {
                None
            } else {
                spec_file_name(path.drop_last())
            }
        } else if last == seq!['.', '.'] {
            None
        } else {
            Some(last)
        }
    }
}

/// A name that can stand for one entry of a directory.
pub open spec fn is_entry_name(name: Seq<char>) -> bool {
    &&& name.len() > 0
    &&& !name.contains('/')
    &&& name != seq!['.']
    &&& name != seq!['.', '.']
}

/// `final_start` is the one index with no separator behind it and one just before it.
pub proof fn lemma_final_start(path: Seq<char>, start: int)
    requires
        0 <= start <= path.len(),
        forall|i: int| start <= i < path.len() ==> path[i] != '/',
        start == 0 || path[start - 1] == '/',
    ensures
        final_start(path) == start,
    decreases path.len(),
{
    if path.len() == 0 || path.last() == '/' {
    } else {
        lemma_final_start(path.drop_last(), start);
    }
}

/// The final component holds no separator.
pub proof fn lemma_final_component(path: Seq<char>)
    ensures
        final_start(path) <= path.len(),
        !final_component(path).contains('/'),
        final_start(path) == 0 || path[final_start(path) - 1] == '/',
    decreases path.len(),
{
    if path.len() == 0 || path.last() == '/' {
        assert(final_component(path) =~= Seq::<char>::empty());
    } else {
        let front = path.drop_last();
        lemma_final_component(front);
        assert(final_component(path) =~= final_component(front).push(path.last()));
        let c = final_component(front);
        assert forall|i: int| 0 <= i < c.push(path.last()).len() implies c.push(path.last())[i]
            != '/' by {
            if i < c.len() {
                assert(c.contains(c[i]));
            }
        }
    }
}

/// A file name is an entry name.
pub proof fn lemma_file_name_is_entry_name(path: Seq<char>)
    ensures
        spec_file_name(path) matches Some(name) ==> is_entry_name(name),
    decreases path.len(),
{
    if path.len() > 0 {
        lemma_final_component(path);
        lemma_file_name_is_entry_name(path.drop_last());
    }
}

/// The file name of a directory's child is the child's name.
pub proof fn law_file_name_of_child(dir: Seq<char>, name: Seq<char>)
    requires
        is_entry_name(name),
    ensures
        spec_file_name(spec_join(dir, name)) == Some(name),
{
    let path = spec_join(dir, name);
    assert(name[0] != '/') by {
        assert(name.contains(name[0]));
    }
    let start = path.len() - name.len();
    assert(path.subrange(start, path.len() as int) =~= name);
    assert forall|i: int| start <= i < path.len() implies path[i] != '/' by {
        assert(name.contains(name[i - start]));
    }
    lemma_final_start(path, start);
}

/// Two relative names that give one child path are one name.
pub proof fn lemma_join_injective(dir: Seq<char>, a: Seq<char>, b: Seq<char>)
    requires
        a.len() == 0 || a[0] != '/',
        b.len() == 0 || b[0] != '/',
        spec_join(dir, a) == spec_join(dir, b),
    ensures
        a == b,
{
    let pa = spec_join(dir, a);
    let pb = spec_join(dir, b);
    let k = pa.len() - a.len();
    assert(pa.subrange(k, pa.len() as int) =~= a);
    assert(pb.subrange(k, pb.len() as int) =~= b);
}

/// Adjoins `tail` to `base`.
pub fn join(base: &str, tail: &str) -> (joined: String)
    ensures
        joined@ == spec_join(base@, tail@),
{
    let tail_len: usize = tail.unicode_len();
    if tail_len > 0 && tail.get_char(0) == '/' {
        return String::from_str(tail);
    }
    let base_len: usize = base.unicode_len();
    let mut joined = String::from_str(base);
    if base_len > 0 && base.get_char(base_len - 1) != '/' {
        proof {
            reveal_strlit("/");
        }
        joined.append("/");
        assert(joined@ =~= base@ + seq!['/']);
    }
    joined.append(tail);
    joined
}

/// The file name of `path`, if it has one.
pub fn file_name(path: &str) -> (name: Option<String>)
    ensures
        name.is_some() == spec_file_name(path@).is_some(),
        name matches Some(n) ==> Some(n@) == spec_file_name(path@),
{
    let mut end: usize = path.unicode_len();
    assert(path@.take(end as int) =~= path@);
    loop
        invariant
            end <= path@.len(),
            spec_file_name(path@) == spec_file_name(path@.take(end as int)),
        decreases end,
    {
        if end == 0 {
            return None;
        }
        let ghost front = path@.take(end as int);
        let mut start: usize = end;
        while start > 0 && path.get_char(start - 1) != '/'
            invariant
                start <= end <= path@.len(),
                forall|i: int| start <= i < end ==> path@[i] != '/',
            decreases start,
        {
            start = start - 1;
        }
        proof {
            lemma_final_start(front, start as int);
            assert(final_component(front) =~= path@.subrange(start as int, end as int));
            assert(front.drop_last() =~= path@.take(end - 1));
        }
        if start == end {
            end = end - 1;
        } else if end - start == 1 && path.get_char(start) == '.' {
            assert(final_component(front) =~= seq!['.']);
            if start == 0 {
                return None;
            }
            end = end - 1;
        } else if end - start == 2 && path.get_char(start) == '.' && path.get_char(start + 1)
            == '.' {
            assert(final_component(front) =~= seq!['.', '.']);
            return None;
        } else {
            let last = path.substring_char(start, end);
            proof {
                let c = final_component(front);
                if c == seq!['.'] {
                    assert(c.len() == 1 && c[0] == '.');
                }
                if c == seq!['.', '.'] {
                    assert(c.len() == 2 && c[0] == '.' && c[1] == '.');
                }
            }
            return Some(String::from_str(last));
        }
    }
}

} // verus!
