//! Where the program is installed and where its configuration files are.
//!
//! Paths are written in the style of the system. Those of the running program and
//! of directories are in normal form: without `.` and `..`, repeated separators,
//! or a separator at the end other than that of the root.

use crate::text::{chars_of, option_str, option_text, starts_with, string_texts};
use vstd::prelude::*;

verus! {

/// How a system writes its paths.
#[derive(Clone, Copy, Debug, PartialEq, Eq, Structural)]
pub enum PathStyle {
    /// `/` separates, and a path from the root begins with it.
    Unix,
    /// `\` separates, as does `/`, and a path from the root may name a drive, or a
    /// server and what it shares.
    Windows,
}

/// Whether `c` separates the components of a path.
pub open spec fn separates(style: PathStyle, c: char) -> bool {
    c == '/' || (style is Windows && c == '\\')
}

/// What is put between two components.
pub open spec fn separator(style: PathStyle) -> char {
    match style {
        PathStyle::Unix => '/',
        PathStyle::Windows => '\\',
    }
}

/// The place of the first separator in `path` from `from` on; the end of `path`
/// where there is none.
pub open spec fn next_separator(style: PathStyle, path: Seq<char>, from: int) -> int
    decreases path.len() - from,
{
    if from >= path.len() {
        path.len() as int
    } else if separates(style, path[from]) {
        from
    } else {
        next_separator(style, path, from + 1)
    }
}

/// The place of the last separator in `path`; -1 where there is none.
pub open spec fn last_separator(style: PathStyle, path: Seq<char>) -> int
    decreases path.len(),
{
    if path.len() == 0 {
        -1
    } else if separates(style, path.last()) {
        path.len() - 1
    } else {
        last_separator(style, path.drop_last())
    }
}

/// Where the last of `count` components ends, the first of which begins at `from`.
pub open spec fn components_end(style: PathStyle, path: Seq<char>, from: int, count: nat) -> int
    decreases count,
{
    let end = next_separator(style, path, from);
    if count <= 1 || end >= path.len() {
        end
    } else {
        components_end(style, path, end + 1, (count - 1) as nat)
    }
}

/// Whether `path` begins with a drive, such as `C:`.
pub open spec fn has_drive(path: Seq<char>) -> bool {
    path.len() >= 2 && path[1] == ':' && ('a' <= path[0] <= 'z' || 'A' <= path[0] <= 'Z')
}

/// Whether `path` begins with two separators, as in `\\server\share`, `\\?\C:` and
/// `\\?\UNC\server\share`.
pub open spec fn has_server(path: Seq<char>) -> bool {
    path.len() >= 2 && separates(PathStyle::Windows, path[0]) && separates(
        PathStyle::Windows,
        path[1],
    )
}

/// Where the names of a server and of what it shares end in such a path.
pub open spec fn server_end(path: Seq<char>) -> int {
    let count: nat = if "\\\\?\\UNC\\"@.is_prefix_of(path) {
        4
    } else {
        2
    };
    components_end(PathStyle::Windows, path, 2, count)
}

/// The length of the part of `path` that names the root, together with the
/// separator that ends it.
pub open spec fn root_len(style: PathStyle, path: Seq<char>) -> int {
    let named = if style is Windows && has_server(path) {
        server_end(path)
    } else if style is Windows && has_drive(path) {
        2
    } else {
        0
    };
    if named < path.len() && separates(style, path[named]) {
        named + 1
    } else {
        named
    }
}

/// The directory that `path` is in; a root and the empty path are in none.
pub open spec fn parent(style: PathStyle, path: Seq<char>) -> Option<Seq<char>> {
    let root = root_len(style, path);
    let end = last_separator(style, path);
    if path.len() <= root {
        None
    } else if end < root {
        Some(path.take(root))
    } else {
        Some(path.take(end))
    }
}

/// Whether `dir` has no separator at its end, other than that of the root, and
/// whether what a server shares, if there is one, is named in full.
pub open spec fn in_normal_form(style: PathStyle, dir: Seq<char>) -> bool {
    &&& dir.len() > root_len(style, dir) ==> !separates(style, dir.last())
    &&& style is Windows && has_server(dir) ==> server_end(dir) < dir.len()
}

/// Whether `name` can be that of a file.
pub open spec fn names_file(style: PathStyle, name: Seq<char>) -> bool {
    &&& name.len() > 0
    &&& forall|i: int| 0 <= i < name.len() ==> !separates(style, #[trigger] name[i])
    &&& style is Windows ==> forall|i: int| 0 <= i < name.len() ==> #[trigger] name[i] != ':'
}

/// The path of `name` in the directory `dir`. A drive alone stands for the
/// directory that is current on it.
pub open spec fn joined_path(style: PathStyle, dir: Seq<char>, name: Seq<char>) -> Seq<char> {
    if dir.len() == 0 || separates(style, dir.last()) {
        dir + name
    } else if style is Windows && has_drive(dir) && dir.len() == 2 {
        dir + name
    } else {
        dir.push(separator(style)) + name
    }
}

/// The directories that `path` is in, the nearest first.
pub open spec fn ancestors(style: PathStyle, path: Seq<char>) -> Seq<Seq<char>>
    decreases path.len(),
    via ancestors_decreases
{
    match parent(style, path) {
        None => seq![],
        Some(dir) => seq![dir] + ancestors(style, dir),
    }
}

#[via_fn]
proof fn ancestors_decreases(style: PathStyle, path: Seq<char>) {
    lemma_root_len(style, path);
    lemma_last_separator_found(style, path);
}

/// The file that marks `dir` as the prefix that the program is installed under.
pub open spec fn marker(style: PathStyle, dir: Seq<char>) -> Seq<char> {
    joined_path(style, joined_path(style, dir, "bin"@), "ai"@)
}

/// The system's configuration file.
pub open spec fn system_config() -> Seq<char> {
    "/etc/ai/config.toml"@
}

/// The configuration file of an installation.
pub open spec fn prefix_config(style: PathStyle, prefix: Seq<char>) -> Seq<char> {
    joined_path(
        style,
        joined_path(style, joined_path(style, prefix, "etc"@), "ai"@),
        "config.toml"@,
    )
}

/// The user's configuration file, given the directory for such files.
pub open spec fn user_config(style: PathStyle, config_dir: Seq<char>) -> Seq<char> {
    joined_path(style, joined_path(style, config_dir, "ai"@), "config.toml"@)
}

/// The configuration files, lowest priority first.
pub open spec fn search_paths(
    style: PathStyle,
    prefix: Option<Seq<char>>,
    config_dir: Option<Seq<char>>,
) -> Seq<Seq<char>> {
    seq![system_config()] + match prefix {
        Some(prefix) => seq![prefix_config(style, prefix)],
        None => seq![],
    } + match config_dir {
        Some(config_dir) => seq![user_config(style, config_dir)],
        None => seq![],
    }
}

/// Whether `probe` may give `answer` when it is asked about `path`.
pub open spec fn may_answer<P: Fn(&str) -> bool>(probe: P, path: Seq<char>, answer: bool) -> bool {
    exists|asked: &str| asked@ == path && #[trigger] probe.ensures((asked,), answer)
}

/// Whether `found` is the nearest directory that `probe` says is marked, and all
/// nearer ones it says are not.
pub open spec fn nearest_marked<P: Fn(&str) -> bool>(
    style: PathStyle,
    probe: P,
    dirs: Seq<Seq<char>>,
    found: Option<Seq<char>>,
) -> bool {
    exists|n: int|
        {
            &&& 0 <= n <= dirs.len()
            &&& forall|i: int|
                0 <= i < n ==> may_answer(probe, marker(style, #[trigger] dirs[i]), false)
            &&& found == #[trigger] nth(dirs, n)
            &&& n < dirs.len() ==> may_answer(probe, marker(style, dirs[n]), true)
        }
}

/// The `n`th of `dirs`, where there is one.
pub open spec fn nth(dirs: Seq<Seq<char>>, n: int) -> Option<Seq<char>> {
    if 0 <= n < dirs.len() {
        Some(dirs[n])
    } else {
        None
    }
}

/// The first of `dirs` whose marker is `present`.
pub open spec fn first_marked(
    style: PathStyle,
    dirs: Seq<Seq<char>>,
    present: spec_fn(Seq<char>) -> bool,
) -> Option<Seq<char>>
    decreases dirs.len(),
{
    if dirs.len() == 0 {
        None
    } else if present(marker(style, dirs[0])) {
        Some(dirs[0])
    } else {
        first_marked(style, dirs.skip(1), present)
    }
}

proof fn lemma_next_separator(style: PathStyle, path: Seq<char>, from: int, n: int)
    requires
        0 <= from <= n <= path.len(),
        forall|i: int| from <= i < n ==> !separates(style, #[trigger] path[i]),
        n < path.len() ==> separates(style, path[n]),
    ensures
        next_separator(style, path, from) == n,
    decreases n - from,
{
    if from < n {
        assert(!separates(style, path[from]));
        lemma_next_separator(style, path, from + 1, n);
    }
}

proof fn lemma_next_separator_found(style: PathStyle, path: Seq<char>, from: int)
    requires
        0 <= from <= path.len(),
    ensures
        from <= next_separator(style, path, from) <= path.len(),
        next_separator(style, path, from) < path.len() ==> separates(
            style,
            path[next_separator(style, path, from)],
        ),
    decreases path.len() - from,
{
    if from < path.len() && !separates(style, path[from]) {
        lemma_next_separator_found(style, path, from + 1);
    }
}

proof fn lemma_components_end_found(style: PathStyle, path: Seq<char>, from: int, count: nat)
    requires
        0 <= from <= path.len(),
    ensures
        from <= components_end(style, path, from, count) <= path.len(),
        components_end(style, path, from, count) < path.len() ==> separates(
            style,
            path[components_end(style, path, from, count)],
        ),
    decreases count,
{
    lemma_next_separator_found(style, path, from);
    let end = next_separator(style, path, from);
    if count > 1 && end < path.len() {
        lemma_components_end_found(style, path, end + 1, (count - 1) as nat);
    }
}

proof fn lemma_root_len(style: PathStyle, path: Seq<char>)
    ensures
        0 <= root_len(style, path) <= path.len(),
{
    if has_server(path) {
        lemma_components_end_found(PathStyle::Windows, path, 2, 4);
        lemma_components_end_found(PathStyle::Windows, path, 2, 2);
    }
}

proof fn lemma_last_separator(style: PathStyle, path: Seq<char>, n: int)
    requires
        -1 <= n < path.len(),
        forall|i: int| n < i < path.len() ==> !separates(style, #[trigger] path[i]),
        n >= 0 ==> separates(style, path[n]),
    ensures
        last_separator(style, path) == n,
    decreases path.len(),
{
    if n + 1 < path.len() {
        let rest = path.drop_last();
        assert(!separates(style, path[path.len() - 1]));
        assert forall|i: int| n < i < rest.len() implies !separates(
            style,
            #[trigger] rest[i],
        ) by {
            assert(rest[i] == path[i]);
        }
        lemma_last_separator(style, rest, n);
    }
}

proof fn lemma_last_separator_found(style: PathStyle, path: Seq<char>)
    ensures
        -1 <= last_separator(style, path) < path.len(),
    decreases path.len(),
{
    if path.len() > 0 && !separates(style, path.last()) {
        lemma_last_separator_found(style, path.drop_last());
    }
}

fn is_separator(style: PathStyle, c: char) -> (found: bool)
    ensures
        found == separates(style, c),
{
    c == '/' || (style == PathStyle::Windows && c == '\\')
}

fn starts_with_drive(chars: &Vec<char>) -> (found: bool)
    ensures
        found == has_drive(chars@),
{
    chars.len() >= 2 && chars[1] == ':' && (('a' <= chars[0] && chars[0] <= 'z') || ('A' <= chars[0]
        && chars[0] <= 'Z'))
}

fn end_of_components(chars: &Vec<char>, from: usize, count: usize) -> (end: usize)
    requires
        from <= chars.len(),
    ensures
        end == components_end(PathStyle::Windows, chars@, from as int, count as nat),
        end <= chars.len(),
    decreases count,
{
    let style = PathStyle::Windows;
    let mut end: usize = from;
    while end < chars.len() && !is_separator(style, chars[end])
        invariant
            from <= end <= chars.len(),
            forall|i: int| from <= i < end ==> !separates(style, #[trigger] chars@[i]),
        decreases chars.len() - end,
    {
        end += 1;
    }
    proof {
        lemma_next_separator(style, chars@, from as int, end as int);
    }
    if count <= 1 || end >= chars.len() {
        end
    } else {
        end_of_components(chars, end + 1, count - 1)
    }
}

fn root_end(style: PathStyle, path: &str, chars: &Vec<char>) -> (end: usize)
    requires
        chars@ == path@,
    ensures
        end == root_len(style, path@),
{
    let windows = style == PathStyle::Windows;
    let named: usize = if windows && chars.len() >= 2 && is_separator(style, chars[0])
        && is_separator(style, chars[1]) {
        if starts_with(path, "\\\\?\\UNC\\") {
            end_of_components(chars, 2, 4)
        } else {
            end_of_components(chars, 2, 2)
        }
    } else if windows && starts_with_drive(chars) {
        2
    } else {
        0
    };
    if named < chars.len() && is_separator(style, chars[named]) {
        named + 1
    } else {
        named
    }
}

/// The directory that `path` is in, where it is in one.
pub fn parent_dir(style: PathStyle, path: &str) -> (dir: Option<String>)
    ensures
        option_text(dir) == parent(style, path@),
{
    let chars = chars_of(path);
    let root = root_end(style, path, &chars);
    let mut end: usize = chars.len();
    while end > 0 && !is_separator(style, chars[end - 1])
        invariant
            end <= chars.len(),
            forall|i: int| end <= i < chars.len() ==> !separates(style, #[trigger] chars@[i]),
        decreases end,
    {
        end -= 1;
    }
    proof {
        lemma_root_len(style, path@);
        if chars.len() > 0 {
            lemma_last_separator(style, path@, end - 1);
        }
    }
    if chars.len() <= root {
        None
    } else if end <= root {
        assert(path@.take(root as int) =~= path@.subrange(0, root as int));
        Some(path.substring_char(0, root).to_owned())
    } else {
        assert(path@.take(end - 1) =~= path@.subrange(0, end - 1));
        Some(path.substring_char(0, end - 1).to_owned())
    }
}

/// What is put between two components, as a text.
fn separator_text(style: PathStyle) -> (text: &'static str)
    ensures
        text@ == seq![separator(style)],
{
    proof {
        reveal_strlit("/");
        reveal_strlit("\\");
        assert("/"@ =~= seq!['/']);
        assert("\\"@ =~= seq!['\\']);
    }
    match style {
        PathStyle::Unix => "/",
        PathStyle::Windows => "\\",
    }
}

/// The path of `name` in the directory `dir`.
pub fn join_path(style: PathStyle, dir: &str, name: &str) -> (path: String)
    ensures
        path@ == joined_path(style, dir@, name@),
{
    let chars = chars_of(dir);
    let n = chars.len();
    if n == 0 || is_separator(style, chars[n - 1]) || (style == PathStyle::Windows && n == 2
        && starts_with_drive(&chars)) {
        dir.to_owned().concat(name)
    } else {
        let path = dir.to_owned().concat(separator_text(style));
        assert(path@ =~= dir@.push(separator(style)));
        path.concat(name)
    }
}

/// The prefix that the program is installed under: the nearest directory above
/// `exe`, the path of the running program, that holds `bin/ai`.
///
/// `probe` says whether there is a file at a path.
pub fn install_prefix<P: Fn(&str) -> bool>(
    style: PathStyle,
    exe: &str,
    probe: P,
) -> (prefix: Option<String>)
    requires
        forall|i: int, path: &str|
            0 <= i < ancestors(style, exe@).len() && path@ == marker(
                style,
                #[trigger] ancestors(style, exe@)[i],
            ) ==> #[trigger] probe.requires((path,)),
    ensures
        nearest_marked(style, probe, ancestors(style, exe@), option_text(prefix)),
{
    let mut path: String = exe.to_owned();
    let ghost dirs = ancestors(style, exe@);
    let ghost mut n: int = 0;
    assert(dirs.skip(0) =~= dirs);
    loop
        invariant
            dirs == ancestors(style, exe@),
            0 <= n <= dirs.len(),
            dirs.skip(n) == ancestors(style, path@),
            forall|i: int|
                0 <= i < n ==> may_answer(probe, marker(style, #[trigger] dirs[i]), false),
            forall|i: int, path: &str|
                0 <= i < ancestors(style, exe@).len() && path@ == marker(
                    style,
                    #[trigger] ancestors(style, exe@)[i],
                ) ==> #[trigger] probe.requires((path,)),
        decreases dirs.len() - n,
    {
        match parent_dir(style, path.as_str()) {
            None => {
                proof {
                    assert(dirs.skip(n).len() == 0);
                    assert(nth(dirs, n) is None);
                }
                return None;
            },
            Some(dir) => {
                let file = join_path(style, join_path(style, dir.as_str(), "bin").as_str(), "ai");
                proof {
                    assert(dirs.skip(n) == seq![dir@] + ancestors(style, dir@));
                    assert(n < dirs.len() && dirs[n] == dirs.skip(n)[0]);
                    assert(dirs.skip(n + 1) =~= dirs.skip(n).skip(1));
                    assert(dirs.skip(n + 1) =~= ancestors(style, dir@));
                }
                let asked = file.as_str();
                let found = probe(asked);
                assert(may_answer(probe, marker(style, dirs[n]), found));
                if found {
                    assert(nth(dirs, n) == Some(dir@));
                    return Some(dir);
                }
                path = dir;
                proof {
                    n = n + 1;
                }
            },
        }
    }
}

/// The configuration files, lowest priority first: that of the system, that of
/// the installation, and that of the user.
pub fn config_search_paths(
    style: PathStyle,
    prefix: Option<&str>,
    config_dir: Option<&str>,
) -> (paths: Vec<String>)
    ensures
        string_texts(paths@) == search_paths(style, option_str(prefix), option_str(config_dir)),
{
    let mut paths: Vec<String> = Vec::new();
    paths.push("/etc/ai/config.toml".to_owned());
    if let Some(prefix) = prefix {
        paths.push(
            join_path(
                style,
                join_path(style, join_path(style, prefix, "etc").as_str(), "ai").as_str(),
                "config.toml",
            ),
        );
    }
    if let Some(config_dir) = config_dir {
        paths.push(join_path(style, join_path(style, config_dir, "ai").as_str(), "config.toml"));
    }
    assert(string_texts(paths@) =~= search_paths(
        style,
        option_str(prefix),
        option_str(config_dir),
    ));
    paths
}

/// The user's configuration file, under the working directory where the
/// directory for such files is not known.
pub fn user_config_path(style: PathStyle, config_dir: Option<&str>) -> (path: String)
    ensures
        path@ == user_config(
            style,
            match option_str(config_dir) {
                Some(config_dir) => config_dir,
                None => "."@,
            },
        ),
{
    let config_dir = match config_dir {
        Some(config_dir) => config_dir,
        None => ".",
    };
    join_path(style, join_path(style, config_dir, "ai").as_str(), "config.toml")
}

/// Where `probe` reports what is `present`, the prefix is the first directory
/// above the program whose marker is present.
pub proof fn law_prefix_is_the_nearest<P: Fn(&str) -> bool>(
    style: PathStyle,
    probe: P,
    dirs: Seq<Seq<char>>,
    found: Option<Seq<char>>,
    present: spec_fn(Seq<char>) -> bool,
)
    requires
        nearest_marked(style, probe, dirs, found),
        forall|path: Seq<char>, answer: bool| #[trigger]
            may_answer(probe, path, answer) ==> answer == present(path),
    ensures
        found == first_marked(style, dirs, present),
{
    let n = choose|n: int|
        {
            &&& 0 <= n <= dirs.len()
            &&& forall|i: int|
                0 <= i < n ==> may_answer(probe, marker(style, #[trigger] dirs[i]), false)
            &&& found == #[trigger] nth(dirs, n)
            &&& n < dirs.len() ==> may_answer(probe, marker(style, dirs[n]), true)
        };
    assert forall|i: int| 0 <= i < n implies !present(marker(style, #[trigger] dirs[i])) by {
        assert(may_answer(probe, marker(style, dirs[i]), false));
    }
    lemma_first_marked(style, dirs, present, n);
}

proof fn lemma_first_marked(
    style: PathStyle,
    dirs: Seq<Seq<char>>,
    present: spec_fn(Seq<char>) -> bool,
    n: int,
)
    requires
        0 <= n <= dirs.len(),
        forall|i: int| 0 <= i < n ==> !present(marker(style, #[trigger] dirs[i])),
        n < dirs.len() ==> present(marker(style, dirs[n])),
    ensures
        first_marked(style, dirs, present) == nth(dirs, n),
    decreases n,
{
    if n > 0 {
        let rest = dirs.skip(1);
        assert(!present(marker(style, dirs[0])));
        assert forall|i: int| 0 <= i < n - 1 implies !present(
            marker(style, #[trigger] rest[i]),
        ) by {
            assert(rest[i] == dirs[i + 1]);
        }
        lemma_first_marked(style, rest, present, n - 1);
    }
}

/// A file is in the directory that its path was made from.
pub proof fn law_parent_of_joined_path(style: PathStyle, dir: Seq<char>, name: Seq<char>)
    requires
        in_normal_form(style, dir),
        names_file(style, name),
    ensures
        parent(style, joined_path(style, dir, name)) == Some(dir),
        in_normal_form(style, joined_path(style, dir, name)),
{
    let path = joined_path(style, dir, name);
    let start = path.len() - name.len();
    assert forall|i: int| start <= i < path.len() implies !separates(
        style,
        #[trigger] path[i],
    ) by {
        assert(path[i] == name[i - start]);
    }
    assert(!separates(style, path[path.len() - 1]));
    lemma_root_of_joined_path(style, dir, name);
    lemma_root_len(style, dir);
    if start == dir.len() && !(dir.len() > 0 && separates(style, dir.last())) {
        lemma_last_separator(style, path, -1);
    } else {
        lemma_last_separator(style, path, start - 1);
    }
    assert(path.take(dir.len() as int) =~= dir);
}

proof fn lemma_root_of_joined_path(style: PathStyle, dir: Seq<char>, name: Seq<char>)
    requires
        in_normal_form(style, dir),
        names_file(style, name),
    ensures
        root_len(style, joined_path(style, dir, name)) == root_len(style, dir),
        style is Windows && has_server(joined_path(style, dir, name)) ==> server_end(
            joined_path(style, dir, name),
        ) < dir.len(),
{
    let path = joined_path(style, dir, name);
    assert(dir =~= path.take(dir.len() as int));
    assert(forall|i: int| 0 <= i < dir.len() ==> #[trigger] path[i] == dir[i]);
    assert(!separates(style, name[0]));
    if style is Windows && has_server(dir) {
        lemma_components_end_found(style, dir, 2, 2);
        lemma_components_end_found(style, dir, 2, 4);
        lemma_server_of_longer(dir, path);
    } else if style is Windows {
        assert(name[0] != ':');
        assert(name.len() > 1 ==> name[1] != ':');
        if dir.len() == 0 {
            assert(path =~= name);
        } else if separates(style, dir.last()) || (has_drive(dir) && dir.len() == 2) {
            assert(path[dir.len() as int] == name[0]);
        } else {
            assert(path[dir.len() as int] == '\\');
        }
        assert(!has_server(path));
        assert(has_drive(path) == has_drive(dir));
    } else {
        assert(dir.len() == 0 ==> path =~= name);
    }
}

proof fn lemma_server_of_longer(path: Seq<char>, longer: Seq<char>)
    requires
        path == longer.take(path.len() as int),
        path.len() <= longer.len(),
        has_server(path),
        server_end(path) < path.len(),
    ensures
        server_end(longer) == server_end(path),
{
    let style = PathStyle::Windows;
    let lead = "\\\\?\\UNC\\"@;
    reveal_strlit("\\\\?\\UNC\\");
    assert(forall|i: int| 0 <= i < path.len() ==> #[trigger] path[i] == longer[i]);
    if lead.is_prefix_of(longer) {
        assert(forall|i: int| 0 <= i < 8 ==> #[trigger] longer[i] == lead[i]);
        if path.len() < 8 {
            assert(!lead.is_prefix_of(path));
            if path.len() > 3 {
                lemma_next_separator(style, path, 2, 3);
                lemma_next_separator(style, path, 4, path.len() as int);
                reveal_with_fuel(components_end, 2);
            } else {
                lemma_next_separator(style, path, 2, path.len() as int);
            }
            assert(false);
        }
        assert(path.take(8) =~= longer.take(8));
        assert(lead =~= path.take(8));
        assert(lead.is_prefix_of(path));
        lemma_components_of_longer(style, path, longer, 2, 4);
    } else {
        if lead.is_prefix_of(path) {
            assert(longer.subrange(0, 8) =~= path.subrange(0, 8));
            assert(lead.is_prefix_of(longer));
        }
        lemma_components_of_longer(style, path, longer, 2, 2);
    }
}

proof fn lemma_components_of_longer(
    style: PathStyle,
    path: Seq<char>,
    longer: Seq<char>,
    from: int,
    count: nat,
)
    requires
        path == longer.take(path.len() as int),
        path.len() <= longer.len(),
        0 <= from <= path.len(),
        components_end(style, path, from, count) < path.len(),
    ensures
        components_end(style, longer, from, count) == components_end(style, path, from, count),
    decreases count,
{
    lemma_next_separator_found(style, path, from);
    lemma_next_separator_of_longer(style, path, longer, from);
    let end = next_separator(style, path, from);
    if count > 1 && end < path.len() {
        lemma_components_of_longer(style, path, longer, end + 1, (count - 1) as nat);
    }
}

proof fn lemma_next_separator_of_longer(
    style: PathStyle,
    path: Seq<char>,
    longer: Seq<char>,
    from: int,
)
    requires
        path == longer.take(path.len() as int),
        path.len() <= longer.len(),
        0 <= from <= path.len(),
        next_separator(style, path, from) < path.len(),
    ensures
        next_separator(style, longer, from) == next_separator(style, path, from),
    decreases path.len() - from,
{
    assert(from < path.len() ==> path[from] == longer[from]);
    if from < path.len() && !separates(style, path[from]) {
        lemma_next_separator_of_longer(style, path, longer, from + 1);
    }
}

/// A program that runs from `bin/ai` under `prefix` is installed under `prefix`,
/// unless there is a `bin/ai` under its own directory too.
pub proof fn law_installed_program_finds_its_prefix(
    style: PathStyle,
    prefix: Seq<char>,
    present: spec_fn(Seq<char>) -> bool,
)
    requires
        in_normal_form(style, prefix),
        present(marker(style, prefix)),
        !present(marker(style, joined_path(style, prefix, "bin"@))),
    ensures
        first_marked(style, ancestors(style, marker(style, prefix)), present) == Some(prefix),
{
    reveal_strlit("bin");
    reveal_strlit("ai");
    let bin = joined_path(style, prefix, "bin"@);
    law_parent_of_joined_path(style, prefix, "bin"@);
    law_parent_of_joined_path(style, bin, "ai"@);
    let dirs = ancestors(style, marker(style, prefix));
    assert(ancestors(style, bin) == seq![prefix] + ancestors(style, prefix));
    assert(dirs == seq![bin] + ancestors(style, bin));
    assert(dirs[0] == bin && dirs[1] == prefix);
    lemma_first_marked(style, dirs, present, 1);
}

/// The system's configuration file has the lowest priority and the user's the
/// highest.
pub proof fn law_order_of_search_paths(
    style: PathStyle,
    prefix: Option<Seq<char>>,
    config_dir: Option<Seq<char>>,
)
    ensures
        ({
            let paths = search_paths(style, prefix, config_dir);
            &&& paths.first() == system_config()
            &&& config_dir matches Some(dir) ==> paths.last() == user_config(style, dir)
            &&& prefix matches Some(dir) ==> paths[1] == prefix_config(style, dir)
            &&& paths.len() == 1 + (if prefix is Some {
                1int
            } else {
                0
            }) + (if config_dir is Some {
                1int
            } else {
                0
            })
        }),
{
}

/// Each directory that a path is in is the one that the nearer one is in, from the
/// path itself up to one that is in none.
pub proof fn law_ancestors_are_parents_of_parents(style: PathStyle, path: Seq<char>)
    ensures
        ({
            let dirs = ancestors(style, path);
            &&& dirs.len() == 0 <==> parent(style, path) is None
            &&& dirs.len() > 0 ==> parent(style, path) == Some(dirs[0])
            &&& forall|i: int|
                0 <= i < dirs.len() ==> parent(style, #[trigger] dirs[i]) == nth(dirs, i + 1)
        }),
    decreases path.len(),
{
    if let Some(dir) = parent(style, path) {
        lemma_root_len(style, path);
        lemma_last_separator_found(style, path);
        law_ancestors_are_parents_of_parents(style, dir);
        let above = ancestors(style, dir);
        let dirs = ancestors(style, path);
        assert(dirs == seq![dir] + above);
        assert forall|i: int| 0 <= i < dirs.len() implies parent(style, #[trigger] dirs[i]) == nth(
            dirs,
            i + 1,
        ) by {
            if i > 0 {
                assert(dirs[i] == above[i - 1]);
            }
        }
    }
}

/// Where `probe` answers by what is `present`, the prefix that is found is a directory
/// above the program with `bin/ai` in it, and no nearer one has that; where none is
/// found, none has it.
pub proof fn law_no_nearer_directory_has_the_program<P: Fn(&str) -> bool>(
    style: PathStyle,
    probe: P,
    exe: Seq<char>,
    prefix: Option<String>,
    present: spec_fn(Seq<char>) -> bool,
) -> (n: int)
    requires
        nearest_marked(style, probe, ancestors(style, exe), option_text(prefix)),
        forall|asked: &str, answer: bool| #[trigger]
            probe.ensures((asked,), answer) ==> answer == present(asked@),
    ensures
        ({
            let dirs = ancestors(style, exe);
            &&& 0 <= n <= dirs.len()
            &&& forall|i: int|
                0 <= i < n ==> !present(
                    joined_path(style, joined_path(style, #[trigger] dirs[i], "bin"@), "ai"@),
                )
            &&& match prefix {
                Some(dir) => n < dirs.len() && dir@ == dirs[n] && present(
                    joined_path(style, joined_path(style, dir@, "bin"@), "ai"@),
                ),
                None => n == dirs.len(),
            }
        }),
{
    let dirs = ancestors(style, exe);
    let found = option_text(prefix);
    let n = choose|n: int|
        {
            &&& 0 <= n <= dirs.len()
            &&& forall|i: int|
                0 <= i < n ==> may_answer(probe, marker(style, #[trigger] dirs[i]), false)
            &&& found == #[trigger] nth(dirs, n)
            &&& n < dirs.len() ==> may_answer(probe, marker(style, dirs[n]), true)
        };
    assert forall|i: int| 0 <= i < n implies !present(
        joined_path(style, joined_path(style, #[trigger] dirs[i], "bin"@), "ai"@),
    ) by {
        assert(may_answer(probe, marker(style, dirs[i]), false));
    }
    n
}

/// A name is put behind its directory with one separator between them: that of the
/// system, where the directory does not end in one. Behind a drive alone there is none.
pub proof fn law_one_separator_joins(dir: Seq<char>, name: Seq<char>)
    ensures
        joined_path(PathStyle::Unix, dir, name) == if dir.len() == 0 || dir[dir.len() - 1] == '/' {
            dir + name
        } else {
            dir + seq!['/'] + name
        },
        joined_path(PathStyle::Windows, dir, name) == if dir.len() == 0 || dir[dir.len() - 1] == '/'
            || dir[dir.len() - 1] == '\\' || (dir.len() == 2 && dir[1] == ':' && ('a' <= dir[0]
            <= 'z' || 'A' <= dir[0] <= 'Z')) {
            dir + name
        } else {
            dir + seq!['\\'] + name
        },
{
    assert(dir.push('/') =~= dir + seq!['/']);
    assert(dir.push('\\') =~= dir + seq!['\\']);
}

/// Where the files are below a directory that does not end in a separator: what marks
/// the prefix, and the configuration files of the installation and of the user.
pub proof fn law_files_below_a_directory(dir: Seq<char>)
    requires
        dir.len() > 0,
        dir[dir.len() - 1] != '/',
    ensures
        marker(PathStyle::Unix, dir) == dir + "/bin/ai"@,
        prefix_config(PathStyle::Unix, dir) == dir + "/etc/ai/config.toml"@,
        user_config(PathStyle::Unix, dir) == dir + "/ai/config.toml"@,
        dir.len() > 2 && dir[dir.len() - 1] != '\\' ==> {
            &&& marker(PathStyle::Windows, dir) == dir + "\\bin\\ai"@
            &&& prefix_config(PathStyle::Windows, dir) == dir + "\\etc\\ai\\config.toml"@
            &&& user_config(PathStyle::Windows, dir) == dir + "\\ai\\config.toml"@
        },
{
    reveal_strlit("bin");
    reveal_strlit("ai");
    reveal_strlit("etc");
    reveal_strlit("config.toml");
    reveal_strlit("/bin/ai");
    reveal_strlit("/etc/ai/config.toml");
    reveal_strlit("/ai/config.toml");
    reveal_strlit("\\bin\\ai");
    reveal_strlit("\\etc\\ai\\config.toml");
    reveal_strlit("\\ai\\config.toml");
    assert(marker(PathStyle::Unix, dir) =~= dir + "/bin/ai"@);
    assert(prefix_config(PathStyle::Unix, dir) =~= dir + "/etc/ai/config.toml"@);
    assert(user_config(PathStyle::Unix, dir) =~= dir + "/ai/config.toml"@);
    if dir.len() > 2 && dir[dir.len() - 1] != '\\' {
        assert(marker(PathStyle::Windows, dir) =~= dir + "\\bin\\ai"@);
        assert(prefix_config(PathStyle::Windows, dir) =~= dir + "\\etc\\ai\\config.toml"@);
        assert(user_config(PathStyle::Windows, dir) =~= dir + "\\ai\\config.toml"@);
    }
}

/// The configuration files that are looked for: that of the system, then that of the
/// installation, and then that of the user, and no other.
pub proof fn law_files_that_are_looked_for(
    style: PathStyle,
    prefix: Option<&str>,
    config_dir: Option<&str>,
    paths: Seq<String>,
)
    requires
        string_texts(paths) == search_paths(style, option_str(prefix), option_str(config_dir)),
    ensures
        ({
            let above: int = if prefix is Some {
                2
            } else {
                1
            };
            &&& paths.len() == above + if config_dir is Some {
                1int
            } else {
                0
            }
            &&& paths[0]@ == "/etc/ai/config.toml"@
            &&& prefix matches Some(dir) ==> paths[1]@ == prefix_config(style, dir@)
            &&& config_dir matches Some(dir) ==> paths[above]@ == user_config(style, dir@)
        }),
{
    let found = string_texts(paths);
    assert(found.len() == paths.len());
    assert(forall|i: int| 0 <= i < paths.len() ==> #[trigger] paths[i]@ == found[i]);
}

proof fn lemma_parent_is_root(style: PathStyle, root: Seq<char>, name: Seq<char>)
    requires
        root.len() > 0 ==> separates(style, root.last()),
        name.len() > 0,
        forall|i: int| 0 <= i < name.len() ==> !separates(style, #[trigger] name[i]),
        root_len(style, root + name) == root.len(),
    ensures
        parent(style, root + name) == Some(root),
{
    let path = root + name;
    assert forall|i: int| root.len() <= i < path.len() implies !separates(
        style,
        #[trigger] path[i],
    ) by {
        assert(path[i] == name[i - root.len()]);
    }
    assert(root.len() > 0 ==> path[root.len() - 1] == root.last());
    lemma_last_separator(style, path, root.len() - 1);
    assert(path.take(root.len() as int) =~= root);
}

proof fn lemma_parent_is_below_root(
    style: PathStyle,
    root: Seq<char>,
    dir: Seq<char>,
    c: char,
    name: Seq<char>,
)
    requires
        separates(style, c),
        name.len() > 0,
        forall|i: int| 0 <= i < name.len() ==> !separates(style, #[trigger] name[i]),
        root_len(style, root + (dir + seq![c] + name)) == root.len(),
    ensures
        parent(style, root + (dir + seq![c] + name)) == Some(root + dir),
{
    let path = root + (dir + seq![c] + name);
    let at = (root.len() + dir.len()) as int;
    assert forall|i: int| at < i < path.len() implies !separates(style, #[trigger] path[i]) by {
        assert(path[i] == name[i - at - 1]);
    }
    assert(path[at] == c);
    lemma_last_separator(style, path, at);
    assert(path.take(at) =~= root + dir);
}

/// Where a file is on Unix: in the directory that its path names before the last
/// separator, in the root, or in the one that a bare name starts from. The root and
/// the empty path are in no directory.
pub proof fn law_parent_on_unix(dir: Seq<char>, name: Seq<char>)
    requires
        dir.len() > 0,
        name.len() > 0,
        forall|i: int| 0 <= i < name.len() ==> #[trigger] name[i] != '/',
    ensures
        dir != seq!['/'] ==> parent(PathStyle::Unix, dir + seq!['/'] + name) == Some(dir),
        parent(PathStyle::Unix, seq!['/'] + name) == Some(seq!['/']),
        parent(PathStyle::Unix, name) == Some(Seq::<char>::empty()),
        parent(PathStyle::Unix, seq!['/']) is None,
        parent(PathStyle::Unix, Seq::<char>::empty()) is None,
{
    let style = PathStyle::Unix;
    let nothing = Seq::<char>::empty();
    let root = seq!['/'];
    assert forall|i: int| 0 <= i < name.len() implies !separates(style, #[trigger] name[i]) by {
        assert(name[i] != '/');
    }
    assert(!separates(style, name[0]));
    assert(nothing + name =~= name);
    lemma_parent_is_root(style, nothing, name);
    assert((root + name)[0] == '/');
    lemma_parent_is_root(style, root, name);
    let path = dir + seq!['/'] + name;
    assert(path[0] == dir[0]);
    if dir[0] == '/' {
        let rest = dir.skip(1);
        assert(root + rest =~= dir);
        assert(root + (rest + seq!['/'] + name) =~= path);
        lemma_parent_is_below_root(style, root, rest, '/', name);
    } else {
        assert(nothing + dir =~= dir);
        assert(nothing + path =~= path);
        lemma_parent_is_below_root(style, nothing, dir, '/', name);
    }
}

proof fn lemma_root_of_server(root: Seq<char>, server: Seq<char>, share: Seq<char>, rest: Seq<char>)
    requires
        forall|i: int| 0 <= i < server.len() ==> !separates(
            PathStyle::Windows,
            #[trigger] server[i],
        ),
        forall|i: int| 0 <= i < share.len() ==> !separates(
            PathStyle::Windows,
            #[trigger] share[i],
        ),
        server != seq!['?'] || share != seq!['U', 'N', 'C'],
        root == seq!['\\', '\\'] + server + seq!['\\'] + share + seq!['\\'],
    ensures
        root_len(PathStyle::Windows, root + rest) == root.len(),
{
    let style = PathStyle::Windows;
    let path = root + rest;
    let mid = 2 + server.len() as int;
    let end = mid + 1 + share.len();
    assert forall|i: int| 2 <= i < mid implies !separates(style, #[trigger] path[i]) by {
        assert(path[i] == server[i - 2]);
    }
    assert(path[mid] == '\\');
    lemma_next_separator(style, path, 2, mid);
    assert forall|i: int| mid + 1 <= i < end implies !separates(style, #[trigger] path[i]) by {
        assert(path[i] == share[i - mid - 1]);
    }
    assert(path[end] == '\\');
    lemma_next_separator(style, path, mid + 1, end);
    reveal_with_fuel(components_end, 2);
    assert(components_end(style, path, 2, 2) == end);
    reveal_strlit("\\\\?\\UNC\\");
    let lead = "\\\\?\\UNC\\"@;
    if lead.is_prefix_of(path) {
        assert(forall|i: int| 0 <= i < 8 ==> path.subrange(0, 8)[i] == path[i]);
        assert(path.subrange(0, 8) == lead);
        assert(path[2] == '?' && path[3] == '\\' && path[4] == 'U' && path[5] == 'N' && path[6]
            == 'C' && path[7] == '\\');
        assert(mid == 3);
        assert(end == 7);
        assert(server[0] == path[2]);
        assert(server =~= seq!['?']);
        assert(share[0] == path[4] && share[1] == path[5] && share[2] == path[6]);
        assert(share =~= seq!['U', 'N', 'C']);
    }
}

proof fn lemma_root_of_verbatim_server(
    root: Seq<char>,
    server: Seq<char>,
    share: Seq<char>,
    rest: Seq<char>,
)
    requires
        forall|i: int| 0 <= i < server.len() ==> !separates(
            PathStyle::Windows,
            #[trigger] server[i],
        ),
        forall|i: int| 0 <= i < share.len() ==> !separates(
            PathStyle::Windows,
            #[trigger] share[i],
        ),
        root == seq!['\\', '\\', '?', '\\', 'U', 'N', 'C', '\\'] + server + seq!['\\'] + share
            + seq!['\\'],
    ensures
        root_len(PathStyle::Windows, root + rest) == root.len(),
{
    let style = PathStyle::Windows;
    let path = root + rest;
    let mid = 8 + server.len() as int;
    let end = mid + 1 + share.len();
    reveal_strlit("\\\\?\\UNC\\");
    assert(path.subrange(0, 8) =~= "\\\\?\\UNC\\"@);
    lemma_next_separator(style, path, 2, 3);
    lemma_next_separator(style, path, 4, 7);
    assert forall|i: int| 8 <= i < mid implies !separates(style, #[trigger] path[i]) by {
        assert(path[i] == server[i - 8]);
    }
    assert(path[mid] == '\\');
    lemma_next_separator(style, path, 8, mid);
    assert forall|i: int| mid + 1 <= i < end implies !separates(style, #[trigger] path[i]) by {
        assert(path[i] == share[i - mid - 1]);
    }
    assert(path[end] == '\\');
    lemma_next_separator(style, path, mid + 1, end);
    assert(components_end(style, path, mid + 1, 1) == end);
    assert(components_end(style, path, 8, 2) == end);
    assert(components_end(style, path, 4, 3) == end);
    assert(components_end(style, path, 2, 4) == end);
}

/// Whether `root` is a drive with a separator behind it, or what a server shares, in
/// either way of writing them.
pub open spec fn windows_root(root: Seq<char>, server: Seq<char>, share: Seq<char>) -> bool {
    &&& forall|i: int| 0 <= i < server.len() ==> #[trigger] server[i] != '/' && server[i] != '\\'
    &&& forall|i: int| 0 <= i < share.len() ==> #[trigger] share[i] != '/' && share[i] != '\\'
    &&& {
        ||| root.len() == 3 && ('a' <= root[0] <= 'z' || 'A' <= root[0] <= 'Z') && root[1] == ':'
            && (root[2] == '\\' || root[2] == '/')
        ||| root == seq!['\\', '\\'] + server + seq!['\\'] + share + seq!['\\'] && (server != seq![
            '?',
        ] || share != seq!['U', 'N', 'C'])
        ||| root == seq!['\\', '\\', '?', '\\', 'U', 'N', 'C', '\\'] + server + seq!['\\'] + share
            + seq!['\\']
    }
}

proof fn lemma_windows_root(
    root: Seq<char>,
    server: Seq<char>,
    share: Seq<char>,
    rest: Seq<char>,
)
    requires
        windows_root(root, server, share),
    ensures
        root_len(PathStyle::Windows, root + rest) == root.len(),
        separates(PathStyle::Windows, root.last()),
{
    let style = PathStyle::Windows;
    let path = root + rest;
    assert forall|i: int| 0 <= i < server.len() implies !separates(style, #[trigger] server[i]) by {
        assert(server[i] != '/');
    }
    assert forall|i: int| 0 <= i < share.len() implies !separates(style, #[trigger] share[i]) by {
        assert(share[i] != '/');
    }
    if root == seq!['\\', '\\'] + server + seq!['\\'] + share + seq!['\\'] && (server != seq!['?']
        || share != seq!['U', 'N', 'C']) {
        lemma_root_of_server(root, server, share, rest);
    } else if root == seq!['\\', '\\', '?', '\\', 'U', 'N', 'C', '\\'] + server + seq!['\\'] + share
        + seq!['\\'] {
        lemma_root_of_verbatim_server(root, server, share, rest);
    } else {
        assert(path[0] == root[0] && path[1] == root[1] && path[2] == root[2]);
    }
}

/// Where a file is on Windows: in the directory that its path names before the last
/// separator, or in the root. A root is a drive, or what a server shares, and is in no
/// directory.
pub proof fn law_parent_on_windows(
    root: Seq<char>,
    server: Seq<char>,
    share: Seq<char>,
    dir: Seq<char>,
    c: char,
    name: Seq<char>,
)
    requires
        windows_root(root, server, share),
        c == '\\' || c == '/',
        name.len() > 0,
        forall|i: int| 0 <= i < name.len() ==> #[trigger] name[i] != '/' && name[i] != '\\',
    ensures
        parent(PathStyle::Windows, root) is None,
        parent(PathStyle::Windows, root + name) == Some(root),
        parent(PathStyle::Windows, root + (dir + seq![c] + name)) == Some(root + dir),
{
    let style = PathStyle::Windows;
    let nothing = Seq::<char>::empty();
    assert forall|i: int| 0 <= i < name.len() implies !separates(style, #[trigger] name[i]) by {
        assert(name[i] != '/');
    }
    lemma_windows_root(root, server, share, nothing);
    assert(root + nothing =~= root);
    lemma_windows_root(root, server, share, name);
    lemma_parent_is_root(style, root, name);
    lemma_windows_root(root, server, share, dir + seq![c] + name);
    lemma_parent_is_below_root(style, root, dir, c, name);
}

} // verus!
