use vstd::prelude::*;
use crate::text::{chars_of, push_str, string_of};

verus! {

/// `name` joined onto `dir` as `Path::join` does on Unix: an absolute
/// `name` replaces `dir`, and one `/` separates them.
pub open spec fn joined(dir: Seq<char>, name: Seq<char>) -> Seq<char> {
    if name.len() > 0 && name[0] == '/' {
        name
    } else if dir.len() == 0 {
        name
    } else if dir.last() == '/' {
        dir + name
    } else {
        dir + "/"@ + name
    }
}

/// Joins `name` onto the directory `dir`.
pub fn join_path(dir: &str, name: &str) -> (r: String)
    ensures
        r@ == joined(dir@, name@),
{
    let d = chars_of(dir);
    let n = chars_of(name);
    if n.len() > 0 && n[0] == '/' {
        return string_of(name);
    }
    if d.len() == 0 {
        return string_of(name);
    }
    let mut out = string_of(dir);
    if d[d.len() - 1] != '/' {
        push_str(&mut out, "/");
    }
    push_str(&mut out, name);
    out
}

} // verus!
