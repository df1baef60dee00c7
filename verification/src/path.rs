//! Paths as texts whose parts are separated by slashes.
use crate::text::{chars_of, same_text};
use vstd::prelude::*;
use vstd::string::*;

verus! {

/// `part` taken as a path in the directory `base`: an absolute path stands for
/// itself, and any other is put behind the directory and a slash.
pub open spec fn path_joined(base: Seq<char>, part: Seq<char>) -> Seq<char> {
    if part.len() > 0 && part[0] == '/' {
        part
    } else if base.len() == 0 || base.last() == '/' {
        base + part
    } else {
        base + "/"@ + part
    }
}

/// A path in a directory in a directory is found in either order.
pub proof fn law_join_is_associative(a: Seq<char>, b: Seq<char>, c: Seq<char>)
    ensures
        path_joined(a, path_joined(b, c)) == path_joined(path_joined(a, b), c),
{
    reveal_strlit("/");
    assert("/"@ =~= seq!['/']);
    assert(path_joined(a, path_joined(b, c)) =~= path_joined(path_joined(a, b), c));
}

/// In no directory at all a path stands for itself.
pub proof fn law_join_to_nothing(part: Seq<char>)
    ensures
        path_joined(Seq::empty(), part) == part,
{
    assert(path_joined(Seq::empty(), part) =~= part);
}

/// The path `part` in the directory `base`.
pub fn join(base: &str, part: &str) -> (r: String)
    ensures
        r@ == path_joined(base@, part@),
{
    let start = chars_of(part);
    if start.len() > 0 && start[0] == '/' {
        return part.to_owned();
    }
    let held = chars_of(base);
    let r = base.to_owned();
    if held.len() == 0 || held[held.len() - 1] == '/' {
        r.concat(part)
    } else {
        r.concat("/").concat(part)
    }
}

/// What stands behind the last slash of a path.
pub open spec fn tail(path: Seq<char>) -> Seq<char>
    decreases path.len(),
{
    if path.len() == 0 || path.last() == '/' {
        Seq::empty()
    } else {
        tail(path.drop_last()).push(path.last())
    }
}

/// The name of the file or directory that a path leads to: its last part, where
/// slashes at the end and parts that stand for the directory itself do not count.
/// A path that ends by going up, and one without parts, leads to no name.
pub open spec fn file_name_of(path: Seq<char>) -> Option<Seq<char>>
    decreases path.len(),
{
    if path.len() == 0 {
        None
    } else if path.last() == '/' || tail(path) == "."@ {
        file_name_of(path.drop_last())
    } else if tail(path) == ".."@ {
        None
    } else {
        Some(tail(path))
    }
}

proof fn lemma_tail(path: Seq<char>, start: int)
    requires
        0 <= start <= path.len(),
        forall|i: int| start <= i < path.len() ==> #[trigger] path[i] != '/',
        start == 0 || path[start - 1] == '/',
    ensures
        tail(path) == path.skip(start),
    decreases path.len(),
{
    if start == path.len() {
        assert(path.skip(start) =~= Seq::empty());
    } else {
        let less = path.drop_last();
        assert(path[path.len() - 1] != '/');
        lemma_tail(less, start);
        assert(path.skip(start) =~= less.skip(start).push(path.last()));
    }
}

/// The name of the file or directory that a path leads to.
pub fn file_name(path: &str) -> (r: Option<String>)
    ensures
        match (file_name_of(path@), r) {
            (Some(name), Some(s)) => s@ == name,
            (None, None) => true,
            _ => false,
        },
{
    let chars = chars_of(path);
    let mut end: usize = chars.len();
    proof {
        assert(path@.take(end as int) =~= path@);
        reveal_strlit(".");
        reveal_strlit("..");
        assert("."@ =~= seq!['.']);
    }
    while end > 0 && (chars[end - 1] == '/' || (chars[end - 1] == '.' && (end == 1 || chars[end
        - 2] == '/')))
        invariant
            chars@ == path@,
            end <= path@.len(),
            file_name_of(path@) == file_name_of(path@.take(end as int)),
            "."@ == seq!['.'],
        decreases end,
    {
        let ghost here = path@.take(end as int);
        proof {
            assert(here.drop_last() =~= path@.take(end - 1));
            if here.last() != '/' {
                lemma_tail(here, end - 1);
                assert(here.skip(end - 1) =~= seq!['.']);
            }
        }
        end = end - 1;
    }
    if end == 0 {
        return None;
    }
    let ghost here = path@.take(end as int);
    let mut start: usize = end;
    while start > 0 && chars[start - 1] != '/'
        invariant
            chars@ == path@,
            start <= end <= path@.len(),
            forall|i: int| start <= i < end ==> #[trigger] path@[i] != '/',
        decreases start,
    {
        start = start - 1;
    }
    proof {
        assert forall|i: int| start <= i < here.len() implies #[trigger] here[i] != '/' by {
            assert(path@[i] != '/');
        }
        lemma_tail(here, start as int);
        assert(here.skip(start as int) =~= path@.subrange(start as int, end as int));
        assert(here.last() == path@[end - 1]);
        if tail(here) == "."@ {
            assert(here.skip(start as int).len() == 1);
            assert(here.skip(start as int)[0] == path@[start as int]);
        }
    }
    let name = path.substring_char(start, end).to_owned();
    if same_text(name.as_str(), "..") {
        None
    } else {
        Some(name)
    }
}

/// An absolute path stands for itself in every directory. Any other path is put behind the
/// directory, with one slash between them.
pub proof fn law_join(base: Seq<char>, part: Seq<char>)
    ensures
        path_joined(base, seq!['/'] + part) == seq!['/'] + part,
        part.len() == 0 || part[0] != '/' ==> path_joined(base + seq!['/'], part) == base + seq![
            '/',
        ] + part,
        (part.len() == 0 || part[0] != '/') && base.len() > 0 && base[base.len() - 1] != '/'
            ==> path_joined(base, part) == base + seq!['/'] + part,
{
    reveal_strlit("/");
    assert("/"@ =~= seq!['/']);
    assert((seq!['/'] + part)[0] == '/');
    assert((base + seq!['/']).last() == '/');
}

/// A path leads to what stands behind its last slash.
pub proof fn law_name_stands_last(dir: Seq<char>, name: Seq<char>)
    requires
        name.len() > 0,
        !name.contains('/'),
        name != "."@,
        name != ".."@,
    ensures
        file_name_of(dir + seq!['/'] + name) == Some(name),
        file_name_of(name) == Some(name),
{
    lemma_last_part(dir + seq!['/'], name);
    lemma_last_part(Seq::empty(), name);
    assert(Seq::<char>::empty() + name =~= name);
}

proof fn lemma_last_part(before: Seq<char>, name: Seq<char>)
    requires
        before.len() == 0 || before.last() == '/',
        !name.contains('/'),
    ensures
        tail(before + name) == name,
        name.len() > 0 ==> (before + name).last() != '/',
{
    let path = before + name;
    assert forall|i: int| before.len() <= i < path.len() implies #[trigger] path[i] != '/' by {
        assert(name.contains(name[i - before.len()]));
    }
    lemma_tail(path, before.len() as int);
    assert(path.skip(before.len() as int) =~= name);
}

/// Slashes at the end of a path, and a last part that stands for the directory itself, do
/// not count. A path that ends by going up, or without parts, leads to no name.
pub proof fn law_name_of_a_directory(path: Seq<char>)
    ensures
        file_name_of(path + seq!['/']) == file_name_of(path),
        file_name_of(path + seq!['/', '.']) == file_name_of(path),
        file_name_of(path + seq!['/', '.', '.']) is None,
        file_name_of(seq!['.']) is None,
        file_name_of(seq!['.', '.']) is None,
        file_name_of(Seq::empty()) is None,
{
    reveal_strlit(".");
    reveal_strlit("..");
    assert("."@ =~= seq!['.']);
    assert(".."@ =~= seq!['.', '.']);
    let slash = path + seq!['/'];
    let dot = path + seq!['/', '.'];
    let up = path + seq!['/', '.', '.'];
    assert(slash.drop_last() =~= path);
    assert(dot =~= slash + seq!['.']);
    assert(dot.drop_last() =~= slash);
    assert(up =~= slash + seq!['.', '.']);
    lemma_last_part(slash, seq!['.']);
    lemma_last_part(slash, seq!['.', '.']);
    lemma_last_part(Seq::empty(), seq!['.']);
    lemma_last_part(Seq::empty(), seq!['.', '.']);
    assert(Seq::<char>::empty() + seq!['.'] =~= seq!['.']);
    assert(Seq::<char>::empty() + seq!['.', '.'] =~= seq!['.', '.']);
    assert(seq!['.'].drop_last() =~= Seq::empty());
    assert(file_name_of(Seq::empty()) is None);
    assert(seq!['.', '.'].len() != seq!['.'].len());
}

} // verus!
