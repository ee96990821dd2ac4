use vstd::prelude::*;
use vstd::slice::slice_subrange;
use crate::targets::names_view;
use crate::text::{
    chars_eq, chars_of, has_char, has_prefix, push_chars, starts_with, str_eq, string_from_chars,
};

verus! {

/// Why a workspace could not be identified.
#[derive(Clone, Copy, Debug, PartialEq, Eq, Structural)]
pub enum WorkspaceError {
    /// No directory from the start up to the root holds a marker file.
    NotFound,
    /// The marker file holds no name statement.
    Parse,
}

/// Where the enclosing workspace was found.
#[derive(Clone, Debug, PartialEq, Eq)]
pub struct WorkspaceLocation {
    /// The workspace's root directory.
    pub root: String,
    /// The full path of the marker file found there.
    pub marker_path: String,
    /// The marker file's name.
    pub marker: String,
}

/// The marker files, in the order in which they are looked for.
pub open spec fn marker_names() -> Seq<Seq<char>> {
    seq!["MODULE.bazel"@, "WORKSPACE.bazel"@, "WORKSPACE"@]
}

/// A directory given by its components from the root, written with a `/`
/// before each; the root itself gives the empty text.
pub open spec fn joined(dirs: Seq<Seq<char>>) -> Seq<char>
    decreases dirs.len(),
{
    if dirs.len() == 0 {
        Seq::empty()
    } else {
        joined(dirs.drop_last()) + "/"@ + dirs.last()
    }
}

/// The path of a directory; the root is `/`.
pub open spec fn dir_path(dirs: Seq<Seq<char>>) -> Seq<char> {
    if dirs.len() == 0 {
        "/"@
    } else {
        joined(dirs)
    }
}

/// The path of the file `name` in a directory.
pub open spec fn file_path(dirs: Seq<Seq<char>>, name: Seq<char>) -> Seq<char> {
    joined(dirs) + "/"@ + name
}

/// The first marker present in the directory of the first `depth`
/// components, or, failing that, in one of its ancestors: the depth of the
/// directory and the index of the marker.
pub open spec fn locate(dirs: Seq<Seq<char>>, present: Seq<Seq<char>>, depth: nat) -> Option<
    (nat, nat),
>
    decreases depth,
{
    let dir = dirs.take(depth as int);
    if present.contains(file_path(dir, marker_names()[0])) {
        Some((depth, 0))
    } else if present.contains(file_path(dir, marker_names()[1])) {
        Some((depth, 1))
    } else if present.contains(file_path(dir, marker_names()[2])) {
        Some((depth, 2))
    } else if depth == 0 {
        None
    } else {
        locate(dirs, present, (depth - 1) as nat)
    }
}

fn joined_chars(dirs: &Vec<String>, depth: usize) -> (r: Vec<char>)
    requires
        depth <= dirs.len(),
    ensures
        r@ == joined(names_view(dirs@).take(depth as int)),
{
    let mut r: Vec<char> = Vec::new();
    let mut i: usize = 0;
    while i < depth
        invariant
            i <= depth <= dirs.len(),
            r@ == joined(names_view(dirs@).take(i as int)),
        decreases depth - i,
    {
        assert(names_view(dirs@).take(i + 1).drop_last() == names_view(dirs@).take(i as int));
        push_chars(&mut r, "/");
        push_chars(&mut r, dirs[i].as_str());
        i = i + 1;
    }
    r
}

fn marker_name(k: usize) -> (r: &'static str)
    requires
        k < 3,
    ensures
        r@ == marker_names()[k as int],
{
    if k == 0 {
        "MODULE.bazel"
    } else if k == 1 {
        "WORKSPACE.bazel"
    } else {
        "WORKSPACE"
    }
}

fn is_present(present: &Vec<String>, path: &Vec<char>) -> (r: bool)
    ensures
        r == names_view(present@).contains(path@),
{
    let mut i: usize = 0;
    while i < present.len()
        invariant
            i <= present.len(),
            forall|j: int| 0 <= j < i ==> names_view(present@)[j] != path@,
        decreases present.len() - i,
    {
        if chars_eq(&chars_of(present[i].as_str()), path) {
            assert(names_view(present@)[i as int] == path@);
            return true;
        }
        i = i + 1;
    }
    false
}

/// Finds the enclosing workspace of the directory whose components from the
/// root are `base_dir`, in a snapshot of the file system where `present`
/// lists the paths of the files that exist: the first of `MODULE.bazel`,
/// `WORKSPACE.bazel` and `WORKSPACE` found in `base_dir`, else in its
/// parent, and so on up to the root.
pub fn find_bazel_workspace_path(base_dir: &Vec<String>, present: &Vec<String>) -> (r: Result<
    WorkspaceLocation,
    WorkspaceError,
>)
    ensures
        match locate(names_view(base_dir@), names_view(present@), base_dir@.len()) {
            Some((depth, k)) => match r {
                Ok(loc) => {
                    let dir = names_view(base_dir@).take(depth as int);
                    &&& loc.root@ == dir_path(dir)
                    &&& loc.marker_path@ == file_path(dir, marker_names()[k as int])
                    &&& loc.marker@ == marker_names()[k as int]
                },
                Err(_) => false,
            },
            None => r == Err::<WorkspaceLocation, WorkspaceError>(WorkspaceError::NotFound),
        },
{
    let ghost dirs = names_view(base_dir@);
    let ghost names = names_view(present@);
    let mut depth: usize = base_dir.len();
    loop
        invariant
            depth <= base_dir.len(),
            dirs == names_view(base_dir@),
            names == names_view(present@),
            locate(dirs, names, base_dir@.len()) == locate(dirs, names, depth as nat),
        decreases depth,
    {
        let dir = joined_chars(base_dir, depth);
        let mut k: usize = 0;
        while k < 3
            invariant
                k <= 3,
                depth <= base_dir.len(),
                dir@ == joined(dirs.take(depth as int)),
                dirs == names_view(base_dir@),
                names == names_view(present@),
                locate(dirs, names, base_dir@.len()) == locate(dirs, names, depth as nat),
                forall|j: int|
                    0 <= j < k ==> !names.contains(
                        file_path(dirs.take(depth as int), #[trigger] marker_names()[j]),
                    ),
            decreases 3 - k,
        {
            let name = marker_name(k);
            let mut path = dir.clone();
            push_chars(&mut path, "/");
            push_chars(&mut path, name);
            if is_present(present, &path) {
                assert(locate(dirs, names, depth as nat) == Some((depth as nat, k as nat)));
                let root = if depth == 0 {
                    string_from_chars(chars_of("/").as_slice())
                } else {
                    string_from_chars(dir.as_slice())
                };
                let marker_path = string_from_chars(path.as_slice());
                let marker = string_from_chars(chars_of(name).as_slice());
                return Ok(WorkspaceLocation { root, marker_path, marker });
            }
            k = k + 1;
        }
        assert(!names.contains(file_path(dirs.take(depth as int), marker_names()[0])));
        assert(!names.contains(file_path(dirs.take(depth as int), marker_names()[1])));
        assert(!names.contains(file_path(dirs.take(depth as int), marker_names()[2])));
        if depth == 0 {
            return Err(WorkspaceError::NotFound);
        }
        depth = depth - 1;
    }
}

/// A whitespace character of the name statement.
pub open spec fn is_space(c: char) -> bool {
    c == ' ' || c == '\t' || c == '\n' || c == '\r' || c == '\x0B' || c == '\x0C'
}

/// The first position at or after `i` that is not whitespace.
pub open spec fn skip_space(c: Seq<char>, i: int) -> int
    decreases c.len() - i,
{
    if 0 <= i < c.len() && is_space(c[i]) {
        skip_space(c, i + 1)
    } else {
        i
    }
}

/// The characters at `i` are `word`.
pub open spec fn word_at(c: Seq<char>, i: int, word: Seq<char>) -> bool {
    0 <= i && i + word.len() <= c.len() && c.subrange(i, i + word.len()) == word
}

/// A `)` stands at or after `j`, before the end of the line.
pub open spec fn paren_before_eol(c: Seq<char>, j: int) -> bool
    decreases c.len() - j,
{
    if 0 <= j < c.len() && c[j] != '\n' {
        c[j] == ')' || paren_before_eol(c, j + 1)
    } else {
        false
    }
}

/// The first `"` at or after `j` on the same line that a `)` follows on
/// that line.
pub open spec fn closing_quote(c: Seq<char>, j: int) -> Option<int>
    decreases c.len() - j,
{
    if 0 <= j < c.len() && c[j] != '\n' {
        if c[j] == '"' && paren_before_eol(c, j + 1) {
            Some(j)
        } else {
            closing_quote(c, j + 1)
        }
    } else {
        None
    }
}

/// The name of a statement `keyword ( name = "..." ... )` that begins at `i`.
pub open spec fn statement_at(c: Seq<char>, i: int, keyword: Seq<char>) -> Option<Seq<char>> {
    let a = skip_space(c, i + keyword.len());
    let b = skip_space(c, a + 1);
    let d = skip_space(c, b + 4);
    let e = skip_space(c, d + 1);
    if word_at(c, i, keyword) && word_at(c, a, "("@) && word_at(c, b, "name"@) && word_at(
        c,
        d,
        "="@,
    ) && word_at(c, e, "\""@) {
        match closing_quote(c, e + 1) {
            Some(q) => Some(c.subrange(e + 1, q)),
            None => None,
        }
    } else {
        None
    }
}

/// The name of the first such statement that begins at or after `i`.
pub open spec fn first_statement(c: Seq<char>, i: int, keyword: Seq<char>) -> Option<Seq<char>>
    decreases c.len() - i,
{
    if 0 <= i < c.len() {
        match statement_at(c, i, keyword) {
            Some(n) => Some(n),
            None => first_statement(c, i + 1, keyword),
        }
    } else {
        None
    }
}

/// The marker file is a `WORKSPACE` file (its name without extension is
/// `WORKSPACE`): it declares a `workspace`; any other declares a `module`.
pub open spec fn declares_workspace(marker: Seq<char>) -> bool {
    marker == "WORKSPACE"@ || (starts_with(marker, "WORKSPACE."@) && !marker.skip(10).contains(
        '.',
    ))
}

/// The workspace name that a marker file's text declares.
pub open spec fn declared_name(marker: Seq<char>, contents: Seq<char>) -> Option<Seq<char>> {
    if declares_workspace(marker) {
        first_statement(contents, 0, "workspace"@)
    } else {
        first_statement(contents, 0, "module"@)
    }
}

fn space_at(c: &Vec<char>, i: usize) -> (r: bool)
    requires
        i < c.len(),
    ensures
        r == is_space(c@[i as int]),
{
    let x = c[i];
    x == ' ' || x == '\t' || x == '\n' || x == '\r' || x == '\x0B' || x == '\x0C'
}

fn skip_space_exec(c: &Vec<char>, i: usize) -> (r: usize)
    requires
        i <= c.len(),
    ensures
        r == skip_space(c@, i as int),
        r <= c.len(),
{
    let mut j = i;
    while j < c.len() && space_at(c, j)
        invariant
            i <= j <= c.len(),
            skip_space(c@, i as int) == skip_space(c@, j as int),
        decreases c.len() - j,
    {
        j = j + 1;
    }
    j
}

fn word_at_exec(c: &Vec<char>, i: usize, word: &str) -> (r: bool)
    ensures
        r == word_at(c@, i as int, word@),
{
    let w = chars_of(word);
    let mut k: usize = 0;
    if i > c.len() || w.len() > c.len() - i {
        return false;
    }
    while k < w.len()
        invariant
            i + w.len() <= c.len(),
            w@ == word@,
            k <= w.len(),
            forall|j: int| 0 <= j < k ==> c@[i + j] == w@[j],
        decreases w.len() - k,
    {
        if c[i + k] != w[k] {
            assert(c@.subrange(i as int, i + w.len())[k as int] != w@[k as int]);
            return false;
        }
        k = k + 1;
    }
    assert(c@.subrange(i as int, i + w.len()) =~= w@);
    true
}

fn paren_before_eol_exec(c: &Vec<char>, j: usize) -> (r: bool)
    requires
        j <= c.len(),
    ensures
        r == paren_before_eol(c@, j as int),
{
    let mut k = j;
    while k < c.len() && c[k] != '\n'
        invariant
            j <= k <= c.len(),
            paren_before_eol(c@, j as int) == paren_before_eol(c@, k as int),
        decreases c.len() - k,
    {
        if c[k] == ')' {
            return true;
        }
        k = k + 1;
    }
    false
}

fn closing_quote_exec(c: &Vec<char>, j: usize) -> (r: Option<usize>)
    requires
        j <= c.len(),
    ensures
        match closing_quote(c@, j as int) {
            Some(q) => r == Some(q as usize) && j <= q < c.len(),
            None => r is None,
        },
{
    let mut k = j;
    while k < c.len() && c[k] != '\n'
        invariant
            j <= k <= c.len(),
            closing_quote(c@, j as int) == closing_quote(c@, k as int),
        decreases c.len() - k,
    {
        if c[k] == '"' && paren_before_eol_exec(c, k + 1) {
            return Some(k);
        }
        k = k + 1;
    }
    None
}

fn statement_at_exec(c: &Vec<char>, i: usize, keyword: &str) -> (r: Option<String>)
    requires
        i < c.len(),
    ensures
        match statement_at(c@, i as int, keyword@) {
            Some(n) => r matches Some(s) && s@ == n,
            None => r is None,
        },
{
    proof {
        reveal_strlit("(");
        reveal_strlit("name");
        reveal_strlit("=");
        reveal_strlit("\"");
    }
    if !word_at_exec(c, i, keyword) {
        return None;
    }
    let kw = chars_of(keyword);
    let a = skip_space_exec(c, i + kw.len());
    if !word_at_exec(c, a, "(") {
        return None;
    }
    let b = skip_space_exec(c, a + 1);
    if !word_at_exec(c, b, "name") {
        return None;
    }
    let d = skip_space_exec(c, b + 4);
    if !word_at_exec(c, d, "=") {
        return None;
    }
    let e = skip_space_exec(c, d + 1);
    if !word_at_exec(c, e, "\"") {
        return None;
    }
    match closing_quote_exec(c, e + 1) {
        Some(q) => Some(string_from_chars(slice_subrange(c.as_slice(), e + 1, q))),
        None => None,
    }
}

/// The workspace name that the text of the marker file `marker` declares:
/// in a `WORKSPACE` file the first `workspace(name = "...")` statement, in a
/// `MODULE.bazel` file the first `module(name = "...")` statement. Spaces may
/// stand around `(`, `name`, `=` and the quoted name, and more arguments may
/// follow it; the name ends at the first `"` that a `)` follows on its line.
pub fn get_workspace_name(marker: &str, contents: &str) -> (r: Result<String, WorkspaceError>)
    ensures
        match declared_name(marker@, contents@) {
            Some(n) => r matches Ok(s) && s@ == n,
            None => r == Err::<String, WorkspaceError>(WorkspaceError::Parse),
        },
{
    let m = chars_of(marker);
    proof {
        reveal_strlit("WORKSPACE.");
    }
    let workspace_file = str_eq(marker, "WORKSPACE") || (has_prefix(marker, "WORKSPACE.")
        && !has_char(string_from_chars(slice_subrange(m.as_slice(), 10, m.len())).as_str(), '.'));
    let keyword = if workspace_file {
        "workspace"
    } else {
        "module"
    };
    let c = chars_of(contents);
    let mut i: usize = 0;
    while i < c.len()
        invariant
            c@ == contents@,
            keyword@ == (if declares_workspace(marker@) {
                "workspace"@
            } else {
                "module"@
            }),
            declared_name(marker@, contents@) == first_statement(c@, i as int, keyword@),
        decreases c.len() - i,
    {
        if let Some(name) = statement_at_exec(&c, i, keyword) {
            return Ok(name);
        }
        i = i + 1;
    }
    Err(WorkspaceError::Parse)
}

proof fn lemma_locate_from(dirs: Seq<Seq<char>>, present: Seq<Seq<char>>, depth: nat, d: nat)
    requires
        depth <= d <= dirs.len(),
        present.contains(file_path(dirs.take(depth as int), "MODULE.bazel"@)),
        forall|e: nat, k: int|
            depth < e <= dirs.len() && 0 <= k < 3 ==> !present.contains(
                #[trigger] file_path(dirs.take(e as int), marker_names()[k]),
            ),
    ensures
        locate(dirs, present, d) == Some((depth, 0nat)),
    decreases d,
{
    if d > depth {
        assert(!present.contains(file_path(dirs.take(d as int), marker_names()[0])));
        assert(!present.contains(file_path(dirs.take(d as int), marker_names()[1])));
        assert(!present.contains(file_path(dirs.take(d as int), marker_names()[2])));
        lemma_locate_from(dirs, present, depth, (d - 1) as nat);
    }
}

/// Started in a directory below one that holds `MODULE.bazel`, with no
/// marker file in the directories between, the locator finds that
/// directory and its `MODULE.bazel`.
pub proof fn lemma_locate_nearest_module(dirs: Seq<Seq<char>>, present: Seq<Seq<char>>, depth: nat)
    requires
        depth <= dirs.len(),
        present.contains(file_path(dirs.take(depth as int), "MODULE.bazel"@)),
        forall|e: nat, k: int|
            depth < e <= dirs.len() && 0 <= k < 3 ==> !present.contains(
                #[trigger] file_path(dirs.take(e as int), marker_names()[k]),
            ),
    ensures
        locate(dirs, present, dirs.len()) == Some((depth, 0nat)),
{
    lemma_locate_from(dirs, present, depth, dirs.len());
}

proof fn lemma_locate_none_from(dirs: Seq<Seq<char>>, present: Seq<Seq<char>>, d: nat)
    requires
        d <= dirs.len(),
        forall|e: nat, k: int|
            e <= dirs.len() && 0 <= k < 3 ==> !present.contains(
                #[trigger] file_path(dirs.take(e as int), marker_names()[k]),
            ),
    ensures
        locate(dirs, present, d) is None,
    decreases d,
{
    assert(!present.contains(file_path(dirs.take(d as int), marker_names()[0])));
    assert(!present.contains(file_path(dirs.take(d as int), marker_names()[1])));
    assert(!present.contains(file_path(dirs.take(d as int), marker_names()[2])));
    if d > 0 {
        lemma_locate_none_from(dirs, present, (d - 1) as nat);
    }
}

/// Where no directory from the start up to the root holds a marker file,
/// the locator finds nothing.
pub proof fn lemma_locate_outside_workspace(dirs: Seq<Seq<char>>, present: Seq<Seq<char>>)
    requires
        forall|e: nat, k: int|
            e <= dirs.len() && 0 <= k < 3 ==> !present.contains(
                #[trigger] file_path(dirs.take(e as int), marker_names()[k]),
            ),
    ensures
        locate(dirs, present, dirs.len()) is None,
{
    lemma_locate_none_from(dirs, present, dirs.len());
}

} // verus!
