//! The name a process is shown under.

use vstd::prelude::*;

use crate::text::chars_of;

verus! {

/// How a system spells the paths of its executables.
#[derive(Clone, Copy, Debug, PartialEq, Eq, Structural)]
pub enum PathStyle {
    /// Slashes separate.
    Unix,
    /// Slashes and backslashes separate, and a drive or a share may come first.
    Windows,
}

/// How the components of a path are told apart.
#[derive(Clone, Copy, Debug, PartialEq, Eq, Structural)]
pub struct PathRules {
    pub slash: bool,
    pub backslash: bool,
    /// Whether a component `.` counts.
    pub keeps_dot: bool,
}

impl PathRules {
    /// Whether a character separates components.
    pub open spec fn separates(self, c: char) -> bool {
        (self.slash && c == '/') || (self.backslash && c == '\\')
    }

    fn is_separator(self, c: char) -> (separates: bool)
        ensures
            separates == self.separates(c),
    {
        (self.slash && c == '/') || (self.backslash && c == '\\')
    }
}

/// Either slash separates, as on Windows.
pub open spec fn either_slash() -> PathRules {
    PathRules { slash: true, backslash: true, keeps_dot: false }
}

/// Only backslashes separate, as in a Windows path that is taken literally.
pub open spec fn only_backslash() -> PathRules {
    PathRules { slash: false, backslash: true, keeps_dot: true }
}

/// Whether a Windows path is taken literally: it starts with `\\?\`.
pub open spec fn is_verbatim(path: Seq<char>) -> bool {
    path.len() >= 4 && path[0] == '\\' && path[1] == '\\' && path[2] == '?' && path[3] == '\\'
}

/// How the components of a path are told apart.
pub open spec fn rules_of(style: PathStyle, path: Seq<char>) -> PathRules {
    match style {
        PathStyle::Unix => PathRules { slash: true, backslash: false, keeps_dot: false },
        PathStyle::Windows => if is_verbatim(path) {
            only_backslash()
        } else {
            either_slash()
        },
    }
}

/// Where the component that starts at `from` ends.
pub open spec fn component_end(path: Seq<char>, from: int, rules: PathRules) -> int
    decreases path.len() - from,
{
    if from >= path.len() {
        path.len() as int
    } else if rules.separates(path[from]) {
        from
    } else {
        component_end(path, from + 1, rules)
    }
}

/// Where the component behind the one that ends at `end` ends itself.
pub open spec fn next_end(path: Seq<char>, end: int, rules: PathRules) -> int {
    if end < path.len() {
        component_end(path, end + 1, rules)
    } else {
        end
    }
}

/// Whether a drive, a letter with a colon, stands at a place.
pub open spec fn has_drive(path: Seq<char>, at: int) -> bool {
    path.len() >= at + 2 && ('a' <= path[at] <= 'z' || 'A' <= path[at] <= 'Z') && path[at + 1]
        == ':'
}

/// How many characters of a path taken literally name a drive, a share or a device.
pub open spec fn verbatim_prefix(path: Seq<char>) -> int {
    if path.len() >= 8 && path[4] == 'U' && path[5] == 'N' && path[6] == 'C'
        && either_slash().separates(path[7]) {
        let server = component_end(path, 8, only_backslash());
        let share = next_end(path, server, only_backslash());
        if share > server + 1 {
            share
        } else {
            server
        }
    } else if has_drive(path, 4) && (path.len() == 6 || either_slash().separates(path[6])) {
        6
    } else {
        component_end(path, 4, only_backslash())
    }
}

/// How many characters at the start of a path name no file but a drive, a share or a
/// device: `C:`, `\\server\share`, `\\.\device`, and with `\\?\` in front also
/// `\\?\C:`, `\\?\UNC\server\share` and `\\?\name`.
pub open spec fn prefix_len(style: PathStyle, path: Seq<char>) -> int {
    if style == PathStyle::Unix {
        0
    } else if is_verbatim(path) {
        verbatim_prefix(path)
    } else if path.len() >= 2 && either_slash().separates(path[0]) && either_slash().separates(
        path[1],
    ) {
        if path.len() >= 4 && path[2] == '.' && either_slash().separates(path[3]) {
            component_end(path, 4, either_slash())
        } else {
            let server = component_end(path, 2, either_slash());
            let share = next_end(path, server, either_slash());
            if server > 2 && share > server + 1 {
                share
            } else {
                0
            }
        }
    } else if has_drive(path, 0) {
        2
    } else {
        0
    }
}

/// The index of the last separator, or -1.
pub open spec fn last_separator(path: Seq<char>, rules: PathRules) -> int
    decreases path.len(),
{
    if path.len() == 0 {
        -1
    } else if rules.separates(path.last()) {
        path.len() - 1
    } else {
        last_separator(path.drop_last(), rules)
    }
}

pub proof fn lemma_last_separator(path: Seq<char>, rules: PathRules)
    ensures
        -1 <= last_separator(path, rules) < path.len() as int,
    decreases path.len(),
{
    if path.len() > 0 {
        lemma_last_separator(path.drop_last(), rules);
    }
}

/// The last component of a path. Empty components do not count, nor does `.` unless it is
/// kept, and a path that ends in `..` or in a kept `.` names no file.
pub open spec fn last_component(path: Seq<char>, rules: PathRules) -> Option<Seq<char>>
    decreases path.len(),
{
    let cut = last_separator(path, rules);
    let component = path.skip(cut + 1);
    if component == seq!['.', '.'] || (rules.keeps_dot && component == seq!['.']) {
        None
    } else if component.len() == 0 || component == seq!['.'] {
        proof {
            lemma_last_separator(path, rules);
        }
        if cut < 0 {
            None
        } else {
            last_component(path.take(cut), rules)
        }
    } else {
        Some(component)
    }
}

/// The file that a path names: its last component, without the drive or the share.
pub open spec fn file_name(style: PathStyle, path: Seq<char>) -> Option<Seq<char>> {
    last_component(path.skip(prefix_len(style, path)), rules_of(style, path))
}

/// The characters from `start` up to `end` as text.
pub fn text_between(chars: &Vec<char>, start: usize, end: usize) -> (text: String)
    requires
        start <= end <= chars@.len(),
    ensures
        text@ == chars@.subrange(start as int, end as int),
{
    let mut text = String::new();
    let mut i: usize = start;
    while i < end
        invariant
            start <= i <= end <= chars@.len(),
            text@ == chars@.subrange(start as int, i as int),
        decreases end - i,
    {
        text.push(chars[i]);
        i += 1;
        assert(text@ =~= chars@.subrange(start as int, i as int));
    }
    text
}

fn find_component_end(chars: &Vec<char>, from: usize, rules: PathRules) -> (end: usize)
    requires
        from <= chars@.len(),
    ensures
        end == component_end(chars@, from as int, rules),
        from <= end <= chars@.len(),
{
    let mut end: usize = from;
    while end < chars.len() && !rules.is_separator(chars[end])
        invariant
            from <= end <= chars@.len(),
            component_end(chars@, from as int, rules) == component_end(chars@, end as int, rules),
        decreases chars@.len() - end,
    {
        end += 1;
    }
    end
}

fn find_next_end(chars: &Vec<char>, end: usize, rules: PathRules) -> (next: usize)
    requires
        end <= chars@.len(),
    ensures
        next == next_end(chars@, end as int, rules),
        end <= next <= chars@.len(),
{
    if end < chars.len() {
        find_component_end(chars, end + 1, rules)
    } else {
        end
    }
}

fn drive_at(chars: &Vec<char>, at: usize) -> (drive: bool)
    requires
        at <= 4,
    ensures
        drive == has_drive(chars@, at as int),
{
    chars.len() >= at + 2 && (('a' <= chars[at] && chars[at] <= 'z') || ('A' <= chars[at]
        && chars[at] <= 'Z')) && chars[at + 1] == ':'
}

/// How the components of a path are told apart, and how many characters come before them.
fn path_layout(style: PathStyle, chars: &Vec<char>) -> (layout: (PathRules, usize))
    ensures
        layout.0 == rules_of(style, chars@),
        layout.1 == prefix_len(style, chars@),
        layout.1 <= chars@.len(),
{
    let either = PathRules { slash: true, backslash: true, keeps_dot: false };
    let backslash = PathRules { slash: false, backslash: true, keeps_dot: true };
    if style == PathStyle::Unix {
        return (PathRules { slash: true, backslash: false, keeps_dot: false }, 0);
    }
    if chars.len() >= 4 && chars[0] == '\\' && chars[1] == '\\' && chars[2] == '?' && chars[3]
        == '\\' {
        if chars.len() >= 8 && chars[4] == 'U' && chars[5] == 'N' && chars[6] == 'C'
            && either.is_separator(chars[7]) {
            let server = find_component_end(chars, 8, backslash);
            let share = find_next_end(chars, server, backslash);
            if server < chars.len() && share > server + 1 {
                return (backslash, share);
            }
            return (backslash, server);
        }
        if drive_at(chars, 4) && (chars.len() == 6 || either.is_separator(chars[6])) {
            return (backslash, 6);
        }
        return (backslash, find_component_end(chars, 4, backslash));
    }
    if chars.len() >= 2 && either.is_separator(chars[0]) && either.is_separator(chars[1]) {
        if chars.len() >= 4 && chars[2] == '.' && either.is_separator(chars[3]) {
            return (either, find_component_end(chars, 4, either));
        }
        let server = find_component_end(chars, 2, either);
        let share = find_next_end(chars, server, either);
        if server > 2 && server < chars.len() && share > server + 1 {
            return (either, share);
        }
        return (either, 0);
    }
    if drive_at(chars, 0) {
        return (either, 2);
    }
    (either, 0)
}

/// The file name of an executable's path.
pub fn executable_name(path: &str, style: PathStyle) -> (name: Option<String>)
    ensures
        crate::text::text_view(name) == file_name(style, path@),
{
    let mut chars = chars_of(path);
    let (rules, prefix) = path_layout(style, &chars);
    let chars = chars.split_off(prefix);
    let ghost body = path@.skip(prefix as int);
    assert(chars@ =~= body);
    let mut end: usize = chars.len();
    assert(body.take(end as int) =~= body);
    loop
        invariant
            chars@ == body,
            end <= chars@.len(),
            last_component(body, rules) == file_name(style, path@),
            last_component(body, rules) == last_component(body.take(end as int), rules),
        decreases end,
    {
        let ghost whole = body.take(end as int);
        let mut start: usize = end;
        assert(whole.take(end as int) =~= whole);
        while start > 0 && !rules.is_separator(chars[start - 1])
            invariant
                chars@ == body,
                start <= end <= chars@.len(),
                whole == body.take(end as int),
                last_separator(whole, rules) == last_separator(whole.take(start as int), rules),
            decreases start,
        {
            assert(whole.take(start as int).drop_last() =~= whole.take(start - 1));
            assert(whole.take(start as int).last() == chars@[start - 1]);
            start -= 1;
        }
        assert(last_separator(whole, rules) == start - 1) by {
            if start > 0 {
                assert(whole.take(start as int).last() == chars@[start - 1]);
            }
        }
        let ghost component = whole.skip(start as int);
        let length: usize = end - start;
        assert(component.len() == length);
        if length == 2 && chars[start] == '.' && chars[start + 1] == '.' {
            assert(component =~= seq!['.', '.']);
            return None;
        }
        assert(component == seq!['.', '.'] ==> component[0] == '.' && component[1] == '.');
        if length == 0 || (length == 1 && chars[start] == '.') {
            if length == 1 {
                assert(component =~= seq!['.']);
                if rules.keeps_dot {
                    return None;
                }
            }
            if start == 0 {
                return None;
            }
            end = start - 1;
            assert(whole.take(end as int) =~= body.take(end as int));
        } else {
            assert(component == seq!['.'] ==> component[0] == '.');
            let name = text_between(&chars, start, end);
            assert(name@ =~= component);
            return Some(name);
        }
    }
}

/// The name shown for a process: the file name of its executable, else the name
/// the system gives it, else none.
pub open spec fn shown_name(style: PathStyle, name: Seq<char>, path: Seq<char>) -> Option<
    Seq<char>,
> {
    match file_name(style, path) {
        Some(file) => Some(file),
        None => if name.len() > 0 {
            Some(name)
        } else {
            None
        },
    }
}

/// A text, or nothing if it is empty.
pub open spec fn nonempty(text: Seq<char>) -> Option<Seq<char>> {
    if text.len() > 0 {
        Some(text)
    } else {
        None
    }
}

/// The name shown for a process.
pub fn process_name(name: &String, path: &String, style: PathStyle) -> (shown: Option<String>)
    ensures
        crate::text::text_view(shown) == shown_name(style, name@, path@),
{
    match executable_name(path.as_str(), style) {
        Some(file) => Some(file),
        None => nonempty_text(name),
    }
}

/// A copy of a text, or nothing if it is empty.
pub fn nonempty_text(text: &String) -> (kept: Option<String>)
    ensures
        crate::text::text_view(kept) == nonempty(text@),
{
    if text.as_str().is_empty() {
        None
    } else {
        Some(text.clone())
    }
}

} // verus!
