//! An open document: its text, the file it belongs to, and whether it has
//! unsaved changes.
use vstd::prelude::*;
use crate::text::{chars_of, string_from_chars, push_str};

verus! {

/// A path separator: the editor is a Windows program and reads paths as
/// Windows paths, where both `\` and `/` separate components, on every
/// platform (`C:\docs\test.txt` is named `test.txt`).
pub open spec fn is_sep(c: char) -> bool {
    c == '\\' || c == '/'
}

/// A drive prefix such as `C:` at the start of `s`.
pub open spec fn has_drive(s: Seq<char>) -> bool {
    s.len() >= 2 && s[1] == ':' && (('a' <= s[0] && s[0] <= 'z') || ('A' <= s[0] && s[0] <= 'Z'))
}

/// Index just after the last separator in `p[..end]`, or 0 when there is none.
pub open spec fn seg_start(p: Seq<char>, end: int) -> int
    decreases end,
{
    if end <= 0 {
        0
    } else if is_sep(p[end - 1]) {
        end
    } else {
        seg_start(p, end - 1)
    }
}

pub proof fn lemma_seg_start(p: Seq<char>, end: int)
    requires
        0 <= end <= p.len(),
    ensures
        0 <= seg_start(p, end) <= end,
        seg_start(p, end) > 0 ==> is_sep(p[seg_start(p, end) - 1]),
        forall|k: int| seg_start(p, end) <= k < end ==> !is_sep(#[trigger] p[k]),
    decreases end,
{
    if end > 0 && !is_sep(p[end - 1]) {
        lemma_seg_start(p, end - 1);
    }
}

/// The file name of the path `p[..end]`, as `Path::file_name` gives it for a
/// Windows path: the last component, ignoring trailing separators and `.`
/// components; none when that component is `..` or there is none; a drive
/// prefix is not part of the name.
pub open spec fn file_name_upto(p: Seq<char>, end: int) -> Option<Seq<char>>
    decreases end,
{
    if end <= 0 || end > p.len() {
        None
    } else if is_sep(p[end - 1]) {
        file_name_upto(p, end - 1)
    } else {
        let k = seg_start(p, end);
        let seg = p.subrange(k, end);
        proof {
            lemma_seg_start(p, end);
        }
        if seg == "."@ {
            file_name_upto(p, k)
        } else if seg == ".."@ {
            None
        } else if k == 0 && has_drive(seg) {
            let rest = seg.skip(2);
            if rest.len() == 0 || rest == "."@ || rest == ".."@ {
                None
            } else {
                Some(rest)
            }
        } else {
            Some(seg)
        }
    }
}

/// The file name of a path.
pub open spec fn file_name(p: Seq<char>) -> Option<Seq<char>> {
    file_name_upto(p, p.len() as int)
}

fn is_sep_exec(c: char) -> (r: bool)
    ensures
        r == is_sep(c),
{
    c == '\\' || c == '/'
}

/// `cs[a..b]` spells `.`.
fn is_dot(cs: &Vec<char>, a: usize, b: usize) -> (r: bool)
    requires
        a <= b <= cs.len(),
    ensures
        r == (cs@.subrange(a as int, b as int) == "."@),
{
    proof {
        reveal_strlit(".");
        assert("."@.len() == 1);
        assert("."@[0] == '.');
    }
    let r = b - a == 1 && cs[a] == '.';
    proof {
        if r {
            assert(cs@.subrange(a as int, b as int) =~= "."@);
        } else if b - a == 1 {
            assert(cs@.subrange(a as int, b as int)[0] == cs@[a as int]);
        }
    }
    r
}

/// `cs[a..b]` spells `..`.
fn is_dotdot(cs: &Vec<char>, a: usize, b: usize) -> (r: bool)
    requires
        a <= b <= cs.len(),
    ensures
        r == (cs@.subrange(a as int, b as int) == ".."@),
{
    proof {
        reveal_strlit("..");
        assert(".."@.len() == 2);
        assert(".."@[0] == '.' && ".."@[1] == '.');
    }
    let r = b - a == 2 && cs[a] == '.' && cs[a + 1] == '.';
    proof {
        if r {
            assert(cs@.subrange(a as int, b as int) =~= ".."@);
        } else if b - a == 2 {
            assert(cs@.subrange(a as int, b as int)[0] == cs@[a as int]);
            assert(cs@.subrange(a as int, b as int)[1] == cs@[a + 1]);
        }
    }
    r
}

/// The file name of `path`, when it has one.
pub fn path_file_name(path: &str) -> (r: Option<String>)
    ensures
        match r {
            Some(s) => file_name(path@) == Some(s@),
            None => file_name(path@) is None,
        },
{
    let cs = chars_of(path);
    let ghost p = path@;
    let mut end = cs.len();
    loop
        invariant
            cs@ == p,
            p == path@,
            end <= cs.len(),
            file_name_upto(p, end as int) == file_name(p),
        decreases end,
    {
        if end == 0 {
            return None;
        }
        if is_sep_exec(cs[end - 1]) {
            end -= 1;
            continue;
        }
        let mut k = end;
        proof {
            lemma_seg_start(p, end as int);
        }
        while k > 0 && !is_sep_exec(cs[k - 1])
            invariant
                cs@ == p,
                k <= end <= cs.len(),
                seg_start(p, k as int) == seg_start(p, end as int),
            decreases k,
        {
            k -= 1;
        }
        if is_dot(&cs, k, end) {
            end = k;
            continue;
        }
        if is_dotdot(&cs, k, end) {
            return None;
        }
        let drive = end - k >= 2 && cs[k + 1] == ':' && (('a' <= cs[k] && cs[k] <= 'z') || ('A'
            <= cs[k] && cs[k] <= 'Z'));
        if k == 0 && drive {
            let ghost seg = p.subrange(0, end as int);
            proof {
                assert(seg[0] == cs@[0] && seg[1] == cs@[1]);
                assert(seg.skip(2) =~= p.subrange(2, end as int));
            }
            if end == 2 || is_dot(&cs, 2, end) || is_dotdot(&cs, 2, end) {
                return None;
            }
            return Some(string_from_chars(&cs, 2, end));
        }
        proof {
            if k == 0 {
                let seg = p.subrange(0, end as int);
                if seg.len() >= 2 {
                    assert(seg[0] == cs@[0] && seg[1] == cs@[1]);
                }
            }
        }
        return Some(string_from_chars(&cs, k, end));
    }
}

/// The name a tab shows for a path: its file name, or `Untitled`.
pub open spec fn tab_name(path: Option<Seq<char>>) -> Seq<char> {
    match path {
        Some(p) => match file_name(p) {
            Some(n) => n,
            None => "Untitled"@,
        },
        None => "Untitled"@,
    }
}

/// A path as a character sequence.
pub open spec fn path_view(p: Option<String>) -> Option<Seq<char>> {
    match p {
        Some(s) => Some(s@),
        None => None,
    }
}

/// A tab as a new one is: empty, untitled and unmodified.
pub open spec fn untouched(t: Tab) -> bool {
    t.text@.len() == 0 && t.file_path is None && !t.modified
}

/// An open document.
#[derive(Debug)]
pub struct Tab {
    pub text: String,
    pub file_path: Option<String>,
    pub modified: bool,
}

impl Tab {
    /// An empty, untitled, unmodified document.
    pub fn new() -> (t: Tab)
        ensures
            t.text@ == Seq::<char>::empty(),
            t.file_path is None,
            !t.modified,
    {
        Tab { text: String::new(), file_path: None, modified: false }
    }

    /// The file name of the document's path, or `Untitled`.
    pub fn name(&self) -> (r: String)
        ensures
            r@ == tab_name(path_view(self.file_path)),
    {
        match &self.file_path {
            Some(p) => match path_file_name(p.as_str()) {
                Some(n) => n,
                None => "Untitled".to_owned(),
            },
            None => "Untitled".to_owned(),
        }
    }

    /// The tab title: the name, marked with `* ` when there are unsaved changes.
    pub fn title(&self) -> (r: String)
        ensures
            r@ == if self.modified {
                "* "@ + tab_name(path_view(self.file_path))
            } else {
                tab_name(path_view(self.file_path))
            },
    {
        let name = self.name();
        if self.modified {
            let mut r = String::new();
            push_str(&mut r, "* ");
            push_str(&mut r, name.as_str());
            r
        } else {
            name
        }
    }
}

} // verus!
