//! Reading `pacman.conf`: the root and database directories and the
//! repositories with their servers.
//!
//! `Include` lines inside a repository section name mirror lists, which
//! are files.  Reading them is the caller's work: `include_requests` lists
//! them in order, the caller reads each one and hands its servers (read
//! with `parse_mirrorlist`) to `parse`, an empty list for a file that
//! could not be read.
use vstd::prelude::*;
use crate::text::{
    ends_a_line, is_one_line, lemma_split_lines_append, lemma_split_one_line, chars_of, line_ranges, owned_range, range_equals, split_key_value, split_key_value_spec,
    split_lines, trim, trim_range,
};

verus! {

/// A repository section and its servers.
#[derive(Debug)]
pub struct RepoConfig {
    pub name: String,
    pub servers: Vec<String>,
}

/// A repository as plain values.
pub struct RepoView {
    pub name: Seq<char>,
    pub servers: Seq<Seq<char>>,
}

/// The texts of a list of strings.
pub open spec fn texts(v: Seq<String>) -> Seq<Seq<char>> {
    v.map_values(|s: String| s@)
}

impl View for RepoConfig {
    type V = RepoView;

    open spec fn view(&self) -> RepoView {
        RepoView { name: self.name@, servers: texts(self.servers@) }
    }
}

/// What `pacman.conf` sets.
#[derive(Debug)]
pub struct PacmanConfig {
    pub root_dir: String,
    pub db_path: String,
    pub repos: Vec<RepoConfig>,
}

/// A configuration as plain values.
pub struct ConfigView {
    pub root_dir: Seq<char>,
    pub db_path: Seq<char>,
    pub repos: Seq<RepoView>,
}

/// The views of a list of repositories.
pub open spec fn repo_views(v: Seq<RepoConfig>) -> Seq<RepoView> {
    v.map_values(|r: RepoConfig| r@)
}

impl View for PacmanConfig {
    type V = ConfigView;

    open spec fn view(&self) -> ConfigView {
        ConfigView {
            root_dir: self.root_dir@,
            db_path: self.db_path@,
            repos: repo_views(self.repos@),
        }
    }
}

/// Where the reading of a configuration stands after some lines: the
/// settings so far, the closed repository sections, the open one, and the
/// mirror lists asked for.
pub struct ParseState {
    pub root_dir: Seq<char>,
    pub db_path: Seq<char>,
    pub repos: Seq<RepoView>,
    pub current: Option<RepoView>,
    pub requests: Seq<Seq<char>>,
}

/// The state before the first line.
pub open spec fn initial_state() -> ParseState {
    ParseState {
        root_dir: "/"@,
        db_path: "/var/lib/pacman"@,
        repos: Seq::<RepoView>::empty(),
        current: None,
        requests: Seq::<Seq<char>>::empty(),
    }
}

/// The repositories once the open section is closed.
pub open spec fn closed_repos(st: ParseState) -> Seq<RepoView> {
    match st.current {
        Some(r) => st.repos.push(r),
        None => st.repos,
    }
}

/// The servers of the `k`-th mirror list, none where it is not given.
pub open spec fn mirror_at(mirrors: Seq<Seq<Seq<char>>>, k: int) -> Seq<Seq<char>> {
    if 0 <= k < mirrors.len() {
        mirrors[k]
    } else {
        Seq::<Seq<char>>::empty()
    }
}

/// The state after one more line of the configuration.  Blank lines and
/// `#` comments change nothing.  `[name]` opens a repository section,
/// except `[options]`, which opens none and leaves the open one open.
/// `RootDir` and `DBPath` set those directories.  Inside a repository
/// section, `Server` adds a server and `Include` adds the servers of the
/// next mirror list and asks for that file.  Anything else is ignored.
pub open spec fn conf_step(st: ParseState, raw: Seq<char>, mirrors: Seq<Seq<Seq<char>>>) -> ParseState {
    let line = trim(raw);
    if line.len() == 0 || line[0] == '#' {
        st
    } else if line[0] == '[' {
        let rest = line.drop_first();
        if rest.len() > 0 && rest.last() == ']' {
            let name = trim(rest.drop_last());
            if name == "options"@ {
                st
            } else {
                ParseState {
                    repos: closed_repos(st),
                    current: Some(RepoView { name, servers: Seq::<Seq<char>>::empty() }),
                    ..st
                }
            }
        } else {
            st
        }
    } else {
        match split_key_value_spec(line) {
            None => st,
            Some((key, val)) => if key == "RootDir"@ {
                ParseState { root_dir: val, ..st }
            } else if key == "DBPath"@ {
                ParseState { db_path: val, ..st }
            } else if key == "Include"@ {
                match st.current {
                    Some(r) => ParseState {
                        current: Some(
                            RepoView {
                                servers: r.servers + mirror_at(mirrors, st.requests.len() as int),
                                ..r
                            },
                        ),
                        requests: st.requests.push(val),
                        ..st
                    },
                    None => st,
                }
            } else if key == "Server"@ {
                match st.current {
                    Some(r) => ParseState {
                        current: Some(RepoView { servers: r.servers.push(val), ..r }),
                        ..st
                    },
                    None => st,
                }
            } else {
                st
            },
        }
    }
}

/// The state after the given lines.
pub open spec fn conf_fold(lines: Seq<Seq<char>>, mirrors: Seq<Seq<Seq<char>>>) -> ParseState
    decreases lines.len(),
{
    if lines.len() == 0 {
        initial_state()
    } else {
        conf_step(conf_fold(lines.drop_last(), mirrors), lines.last(), mirrors)
    }
}

/// The configuration a text describes, with the given mirror lists.
pub open spec fn config_spec(text: Seq<char>, mirrors: Seq<Seq<Seq<char>>>) -> ConfigView {
    config_of_lines(split_lines(text), mirrors)
}

/// The configuration that the given lines describe.
pub open spec fn config_of_lines(lines: Seq<Seq<char>>, mirrors: Seq<Seq<Seq<char>>>) -> ConfigView {
    let st = conf_fold(lines, mirrors);
    ConfigView { root_dir: st.root_dir, db_path: st.db_path, repos: closed_repos(st) }
}

/// A line that changes nothing: blank, a `#` comment, or a line outside
/// brackets that is not `key = value` with one of the keys `RootDir`,
/// `DBPath`, `Include`, `Server` (compared exactly).
pub open spec fn is_neutral_line(raw: Seq<char>) -> bool {
    let line = trim(raw);
    ||| line.len() == 0
    ||| line[0] == '#'
    ||| line[0] != '[' && match split_key_value_spec(line) {
        None => true,
        Some((key, _)) => key != "RootDir"@ && key != "DBPath"@ && key != "Include"@ && key
            != "Server"@,
    }
}

/// An `Include = path` line.
pub open spec fn is_include_line(raw: Seq<char>) -> bool {
    let line = trim(raw);
    &&& line.len() > 0
    &&& line[0] != '#'
    &&& line[0] != '['
    &&& split_key_value_spec(line) matches Some((key, _)) && key == "Include"@
}

/// The mirror lists without the `t`-th one.
pub open spec fn drop_mirror(mirrors: Seq<Seq<Seq<char>>>, t: int) -> Seq<Seq<Seq<char>>> {
    if 0 <= t < mirrors.len() {
        mirrors.remove(t)
    } else {
        mirrors
    }
}

proof fn lemma_neutral_step(st: ParseState, l: Seq<char>, m: Seq<Seq<Seq<char>>>)
    requires
        is_neutral_line(l),
    ensures
        conf_step(st, l, m) == st,
{
}

/// A line that is blank, a comment, or a setting nobody reads can be put
/// anywhere into a configuration without changing what it describes.
pub proof fn lemma_neutral_line_ignored(
    a: Seq<Seq<char>>,
    l: Seq<char>,
    b: Seq<Seq<char>>,
    m: Seq<Seq<Seq<char>>>,
)
    requires
        is_neutral_line(l),
    ensures
        conf_fold(a + seq![l] + b, m) == conf_fold(a + b, m),
        config_of_lines(a + seq![l] + b, m) == config_of_lines(a + b, m),
    decreases b.len(),
{
    if b.len() == 0 {
        assert(a + seq![l] + b =~= a.push(l));
        assert(a.push(l).drop_last() =~= a);
        assert(a + b =~= a);
        lemma_neutral_step(conf_fold(a, m), l, m);
    } else {
        let b1 = b.drop_last();
        lemma_neutral_line_ignored(a, l, b1, m);
        assert((a + seq![l] + b).drop_last() =~= a + seq![l] + b1);
        assert((a + seq![l] + b).last() == b.last());
        assert((a + b).drop_last() =~= a + b1);
        assert((a + b).last() == b.last());
    }
}

proof fn lemma_requests_grow(lines: Seq<Seq<char>>, m: Seq<Seq<Seq<char>>>)
    ensures
        lines.len() > 0 ==> conf_fold(lines.drop_last(), m).requests.len() <= conf_fold(
            lines,
            m,
        ).requests.len(),
{
}

proof fn lemma_prefix_mirrors_agree(
    a: Seq<Seq<char>>,
    m: Seq<Seq<Seq<char>>>,
    m2: Seq<Seq<Seq<char>>>,
    t: int,
)
    requires
        forall|u: int| 0 <= u < t ==> #[trigger] mirror_at(m, u) == mirror_at(m2, u),
        conf_fold(a, m).requests.len() <= t,
    ensures
        conf_fold(a, m) == conf_fold(a, m2),
    decreases a.len(),
{
    if a.len() > 0 {
        lemma_requests_grow(a, m);
        lemma_prefix_mirrors_agree(a.drop_last(), m, m2, t);
        let st = conf_fold(a.drop_last(), m);
        if st.requests.len() < t {
            assert(mirror_at(m, st.requests.len() as int) == mirror_at(m2, st.requests.len() as int));
        } else {
            lemma_requests_ignore_mirrors(a, m, m2);
            reveal_strlit("RootDir");
            reveal_strlit("DBPath");
            reveal_strlit("Include");
            reveal_strlit("Server");
        }
    }
}

/// `s1` (with the extra `Include`) and `s2` (without it) agree on all but
/// the requests, of which `s1` has one more, past the `t`-th.
pub open spec fn shifted(s1: ParseState, s2: ParseState, t: int) -> bool {
    &&& s1.root_dir == s2.root_dir
    &&& s1.db_path == s2.db_path
    &&& s1.repos == s2.repos
    &&& s1.current == s2.current
    &&& s1.requests.len() == s2.requests.len() + 1
    &&& s2.requests.len() >= t
}

proof fn lemma_shifted_step(
    s1: ParseState,
    s2: ParseState,
    l: Seq<char>,
    m: Seq<Seq<Seq<char>>>,
    t: int,
)
    requires
        0 <= t,
        shifted(s1, s2, t),
    ensures
        shifted(conf_step(s1, l, m), conf_step(s2, l, drop_mirror(m, t)), t),
{
    let u = s2.requests.len() as int;
    assert(mirror_at(m, u + 1) == mirror_at(drop_mirror(m, t), u));
}

/// A mirror list that could not be read (handed over without servers)
/// counts as if its `Include` line were not there: the configuration is
/// the one of the lines without it, with the remaining mirror lists.
pub proof fn lemma_unreadable_mirror_list_as_absent(
    a: Seq<Seq<char>>,
    l: Seq<char>,
    b: Seq<Seq<char>>,
    m: Seq<Seq<Seq<char>>>,
)
    requires
        is_include_line(l),
        conf_fold(a, m).current is Some,
        mirror_at(m, conf_fold(a, m).requests.len() as int).len() == 0,
    ensures
        config_of_lines(a + seq![l] + b, m) == config_of_lines(
            a + b,
            drop_mirror(m, conf_fold(a, m).requests.len() as int),
        ),
{
    let t = conf_fold(a, m).requests.len() as int;
    lemma_shifted_suffix(a, l, b, m, t);
}

proof fn lemma_shifted_suffix(
    a: Seq<Seq<char>>,
    l: Seq<char>,
    b: Seq<Seq<char>>,
    m: Seq<Seq<Seq<char>>>,
    t: int,
)
    requires
        is_include_line(l),
        conf_fold(a, m).current is Some,
        t == conf_fold(a, m).requests.len(),
        mirror_at(m, t).len() == 0,
    ensures
        shifted(conf_fold(a + seq![l] + b, m), conf_fold(a + b, drop_mirror(m, t)), t),
    decreases b.len(),
{
    let m2 = drop_mirror(m, t);
    if b.len() == 0 {
        assert(a + seq![l] + b =~= a.push(l));
        assert(a.push(l).drop_last() =~= a);
        assert(a + b =~= a);
        assert forall|u: int| 0 <= u < t implies #[trigger] mirror_at(m, u) == mirror_at(m2, u) by {}
        lemma_prefix_mirrors_agree(a, m, m2, t);
        let st = conf_fold(a, m);
        let r = st.current->0;
        assert(r.servers + mirror_at(m, t) =~= r.servers);
        reveal_strlit("RootDir");
        reveal_strlit("DBPath");
        reveal_strlit("Include");
        assert("Include"@[0] != "RootDir"@[0]);
        assert("Include"@.len() != "DBPath"@.len());
        assert(RepoView { servers: r.servers + mirror_at(m, t), ..r } == r);
    } else {
        let b1 = b.drop_last();
        lemma_shifted_suffix(a, l, b1, m, t);
        assert((a + seq![l] + b).drop_last() =~= a + seq![l] + b1);
        assert((a + seq![l] + b).last() == b.last());
        assert((a + b).drop_last() =~= a + b1);
        assert((a + b).last() == b.last());
        lemma_shifted_step(conf_fold(a + seq![l] + b1, m), conf_fold(a + b1, m2), b.last(), m, t);
    }
}

/// The mirror list files a text asks for, in order.
pub open spec fn requests_spec(text: Seq<char>) -> Seq<Seq<char>> {
    conf_fold(split_lines(text), Seq::<Seq<Seq<char>>>::empty()).requests
}

/// The servers a mirror list names, after one more line: `Server = url`
/// lines count, everything else is ignored.
pub open spec fn mirror_step(servers: Seq<Seq<char>>, raw: Seq<char>) -> Seq<Seq<char>> {
    let line = trim(raw);
    if line.len() == 0 || line[0] == '#' {
        servers
    } else {
        match split_key_value_spec(line) {
            Some((key, val)) => if key == "Server"@ {
                servers.push(val)
            } else {
                servers
            },
            None => servers,
        }
    }
}

/// The servers a mirror list names, after the given lines.
pub open spec fn mirror_fold(lines: Seq<Seq<char>>) -> Seq<Seq<char>>
    decreases lines.len(),
{
    if lines.len() == 0 {
        Seq::<Seq<char>>::empty()
    } else {
        mirror_step(mirror_fold(lines.drop_last()), lines.last())
    }
}

/// The mirror lists as plain values.
pub open spec fn mirror_views(m: Seq<Vec<String>>) -> Seq<Seq<Seq<char>>> {
    m.map_values(|v: Vec<String>| texts(v@))
}

/// The mirror list files asked for do not depend on the mirror lists
/// given: the requests found in a first pass are those of the real one.
pub proof fn lemma_requests_ignore_mirrors(
    lines: Seq<Seq<char>>,
    a: Seq<Seq<Seq<char>>>,
    b: Seq<Seq<Seq<char>>>,
)
    ensures
        conf_fold(lines, a).requests == conf_fold(lines, b).requests,
        conf_fold(lines, a).current is Some == conf_fold(lines, b).current is Some,
        conf_fold(lines, a).repos.len() == conf_fold(lines, b).repos.len(),
    decreases lines.len(),
{
    if lines.len() > 0 {
        lemma_requests_ignore_mirrors(lines.drop_last(), a, b);
    }
}

proof fn lemma_split_around_line(x: Seq<char>, l: Seq<char>, y: Seq<char>)
    requires
        ends_a_line(x),
        is_one_line(l),
    ensures
        split_lines(x + l.push('\n') + y) == split_lines(x) + seq![l] + split_lines(y),
        split_lines(x + y) == split_lines(x) + split_lines(y),
{
    let lp = l.push('\n');
    lemma_split_lines_append(x, lp);
    lemma_split_one_line(l);
    assert(ends_a_line(x + lp)) by {
        assert((x + lp).last() == '\n');
    }
    lemma_split_lines_append(x + lp, y);
    lemma_split_lines_append(x, y);
}

/// In a configuration text, a line that is blank, a comment, or a setting
/// nobody reads can be put in anywhere (between two lines, with its own
/// line ending) without changing what the text describes.
pub proof fn lemma_neutral_line_ignored_in_text(
    x: Seq<char>,
    l: Seq<char>,
    y: Seq<char>,
    m: Seq<Seq<Seq<char>>>,
)
    requires
        ends_a_line(x),
        is_one_line(l),
        is_neutral_line(l),
    ensures
        config_spec(x + l.push('\n') + y, m) == config_spec(x + y, m),
{
    lemma_split_around_line(x, l, y);
    lemma_neutral_line_ignored(split_lines(x), l, split_lines(y), m);
}

/// In a configuration text, an `Include` line inside a repository section
/// whose mirror list could not be read (handed over without servers)
/// counts as if it were not there: the text describes what the text
/// without that line describes, with the remaining mirror lists.
pub proof fn lemma_unreadable_mirror_list_in_text(
    x: Seq<char>,
    l: Seq<char>,
    y: Seq<char>,
    m: Seq<Seq<Seq<char>>>,
)
    requires
        ends_a_line(x),
        is_one_line(l),
        is_include_line(l),
        conf_fold(split_lines(x), m).current is Some,
        mirror_at(m, conf_fold(split_lines(x), m).requests.len() as int).len() == 0,
    ensures
        config_spec(x + l.push('\n') + y, m) == config_spec(
            x + y,
            drop_mirror(m, conf_fold(split_lines(x), m).requests.len() as int),
        ),
{
    lemma_split_around_line(x, l, y);
    lemma_unreadable_mirror_list_as_absent(split_lines(x), l, split_lines(y), m);
}

/// A line `key = value` outside brackets and comments, with the key and
/// the value trimmed.
pub open spec fn is_setting_line(raw: Seq<char>, key: Seq<char>, val: Seq<char>) -> bool {
    let line = trim(raw);
    &&& line.len() > 0
    &&& line[0] != '#'
    &&& line[0] != '['
    &&& split_key_value_spec(line) == Some((key, val))
}

/// A mirror list line that names no server: blank, a comment, or not a
/// `Server = url` line.
pub open spec fn is_mirror_neutral_line(raw: Seq<char>) -> bool {
    let line = trim(raw);
    ||| line.len() == 0
    ||| line[0] == '#'
    ||| match split_key_value_spec(line) {
        None => true,
        Some((key, _)) => key != "Server"@,
    }
}

/// A `Server = url` line adds its url after the servers of the lines
/// before it, whatever those lines are.
pub proof fn lemma_mirror_server_line_adds(lines: Seq<Seq<char>>, l: Seq<char>, url: Seq<char>)
    requires
        trim(l).len() > 0,
        trim(l)[0] != '#',
        split_key_value_spec(trim(l)) == Some(("Server"@, url)),
    ensures
        mirror_fold(lines.push(l)) == mirror_fold(lines).push(url),
{
    assert(lines.push(l).drop_last() =~= lines);
}

/// A line that names no server can be put anywhere into a mirror list
/// without changing its servers.
pub proof fn lemma_mirror_neutral_line_ignored(a: Seq<Seq<char>>, l: Seq<char>, b: Seq<Seq<char>>)
    requires
        is_mirror_neutral_line(l),
    ensures
        mirror_fold(a + seq![l] + b) == mirror_fold(a + b),
    decreases b.len(),
{
    if b.len() == 0 {
        assert(a + seq![l] + b =~= a.push(l));
        assert(a.push(l).drop_last() =~= a);
        assert(a + b =~= a);
    } else {
        let b1 = b.drop_last();
        lemma_mirror_neutral_line_ignored(a, l, b1);
        assert((a + seq![l] + b).drop_last() =~= a + seq![l] + b1);
        assert((a + seq![l] + b).last() == b.last());
        assert((a + b).drop_last() =~= a + b1);
        assert((a + b).last() == b.last());
    }
}

/// A blank line can be put between any two lines of a mirror list text
/// without changing its servers.
pub proof fn lemma_blank_line_ignored_in_mirrorlist(x: Seq<char>, y: Seq<char>)
    requires
        ends_a_line(x),
    ensures
        mirror_fold(split_lines(x + seq!['\n'] + y)) == mirror_fold(split_lines(x + y)),
{
    let e = Seq::<char>::empty();
    assert(e.push('\n') =~= seq!['\n']);
    assert(trim(e) =~= e);
    lemma_split_around_line(x, e, y);
    lemma_mirror_neutral_line_ignored(split_lines(x), e, split_lines(y));
}

/// What each kind of line does to the configuration read so far:
/// `RootDir` and `DBPath` set their directory; `Server` adds its url to
/// the open repository section and nothing else, and is ignored outside
/// one; `[name]` closes the open section and opens `name`, except
/// `[options]`, which changes nothing.
pub proof fn lemma_conf_line_effects(
    st: ParseState,
    l: Seq<char>,
    key: Seq<char>,
    val: Seq<char>,
    m: Seq<Seq<Seq<char>>>,
)
    ensures
        is_setting_line(l, key, val) && key == "RootDir"@ ==> conf_step(st, l, m) == (ParseState {
            root_dir: val,
            ..st
        }),
        is_setting_line(l, key, val) && key == "DBPath"@ ==> conf_step(st, l, m) == (ParseState {
            db_path: val,
            ..st
        }),
        is_setting_line(l, key, val) && key == "Server"@ && st.current is Some ==> conf_step(st, l, m)
            == (ParseState {
            current: Some(
                RepoView { name: st.current->0.name, servers: st.current->0.servers.push(val) },
            ),
            ..st
        }),
        is_setting_line(l, key, val) && key == "Server"@ && st.current is None ==> conf_step(st, l, m)
            == st,
        trim(l) == seq!['['] + key + seq![']'] && trim(key) != "options"@ ==> conf_step(st, l, m)
            == (ParseState {
            repos: match st.current {
                Some(r) => st.repos.push(r),
                None => st.repos,
            },
            current: Some(RepoView { name: trim(key), servers: Seq::<Seq<char>>::empty() }),
            ..st
        }),
        trim(l) == seq!['['] + key + seq![']'] && trim(key) == "options"@ ==> conf_step(st, l, m)
            == st,
{
    reveal_strlit("RootDir");
    reveal_strlit("DBPath");
    reveal_strlit("Include");
    reveal_strlit("Server");
    assert("RootDir"@.len() == 7 && "DBPath"@.len() == 6 && "Include"@.len() == 7 && "Server"@.len() == 6);
    assert("RootDir"@[0] == 'R' && "DBPath"@[0] == 'D' && "Include"@[0] == 'I' && "Server"@[0] == 'S');
    let line = trim(l);
    if line == seq!['['] + key + seq![']'] {
        assert(line[0] == '[');
        assert(line.drop_first() =~= key + seq![']']);
        assert((key + seq![']']).drop_last() =~= key);
    }
}

/// The mutable state of the reader.
struct Reader {
    root_dir: String,
    db_path: String,
    repos: Vec<RepoConfig>,
    current: Option<RepoConfig>,
    requests: Vec<String>,
}

impl Reader {
    closed spec fn state(&self) -> ParseState {
        ParseState {
            root_dir: self.root_dir@,
            db_path: self.db_path@,
            repos: repo_views(self.repos@),
            current: match self.current {
                Some(r) => Some(r@),
                None => None,
            },
            requests: texts(self.requests@),
        }
    }
}

fn clone_texts(v: &Vec<String>) -> (r: Vec<String>)
    ensures
        texts(r@) == texts(v@),
{
    let r = v.clone();
    assert(texts(r@) =~= texts(v@));
    r
}

/// Reads one line `v[lo..hi]` of `text`.
fn read_line(rd: &mut Reader, text: &str, v: &Vec<char>, lo: usize, hi: usize, mirrors: &Vec<Vec<String>>)
    requires
        v@ == text@,
        lo <= hi <= v@.len(),
    ensures
        final(rd).state() == conf_step(
            old(rd).state(),
            v@.subrange(lo as int, hi as int),
            mirror_views(mirrors@),
        ),
{
    let ghost raw = v@.subrange(lo as int, hi as int);
    let ghost st = rd.state();
    let (a, b) = trim_range(v, lo, hi);
    let ghost line = v@.subrange(a as int, b as int);
    if a == b || v[a] == '#' {
        return;
    }
    assert(line[0] == v@[a as int]);
    if v[a] == '[' {
        assert(line.drop_first() =~= v@.subrange(a + 1, b as int));
        if b > a + 1 && v[b - 1] == ']' {
            assert(line.drop_first().drop_last() =~= v@.subrange(a + 1, b - 1));
            let (na, nb) = trim_range(v, a + 1, b - 1);
            if range_equals(v, na, nb, &chars_of("options")) {
                return;
            }
            let name = owned_range(text, na, nb);
            let opened = RepoConfig { name, servers: Vec::new() };
            let ghost closed = closed_repos(st);
            match rd.current.take() {
                Some(r) => {
                    rd.repos.push(r);
                },
                None => {},
            }
            assert(repo_views(rd.repos@) =~= closed);
            rd.current = Some(opened);
            assert(opened@.servers =~= Seq::<Seq<char>>::empty());
            return;
        }
        return;
    }
    match split_key_value(v, a, b) {
        None => {},
        Some((k, x)) => {
            let val = owned_range(text, x.0, x.1);
            if range_equals(v, k.0, k.1, &chars_of("RootDir")) {
                rd.root_dir = val;
            } else if range_equals(v, k.0, k.1, &chars_of("DBPath")) {
                rd.db_path = val;
            } else if range_equals(v, k.0, k.1, &chars_of("Include")) {
                match rd.current.take() {
                    Some(mut r) => {
                        let n = rd.requests.len();
                        let ghost before = texts(r.servers@);
                        if n < mirrors.len() {
                            let mut extra = clone_texts(&mirrors[n]);
                            r.servers.append(&mut extra);
                            assert(texts(r.servers@) =~= before + texts(mirrors@[n as int]@));
                        } else {
                            assert(texts(r.servers@) =~= before + Seq::<Seq<char>>::empty());
                        }
                        rd.current = Some(r);
                        rd.requests.push(val);
                        assert(texts(rd.requests@) =~= st.requests.push(x_view(v, x)));
                    },
                    None => {},
                }
            } else if range_equals(v, k.0, k.1, &chars_of("Server")) {
                match rd.current.take() {
                    Some(mut r) => {
                        let ghost before = texts(r.servers@);
                        r.servers.push(val);
                        assert(texts(r.servers@) =~= before.push(x_view(v, x)));
                        rd.current = Some(r);
                    },
                    None => {},
                }
            }
        },
    }
}

spec fn x_view(v: &Vec<char>, x: (usize, usize)) -> Seq<char> {
    v@.subrange(x.0 as int, x.1 as int)
}

/// Runs the reader over every line of `text`.
fn read_all(text: &str, mirrors: &Vec<Vec<String>>) -> (rd: Reader)
    ensures
        rd.state() == conf_fold(split_lines(text@), mirror_views(mirrors@)),
{
    let v = chars_of(text);
    let ranges = line_ranges(&v);
    let ghost lines = split_lines(text@);
    let mut rd = Reader {
        root_dir: String::from_str("/"),
        db_path: String::from_str("/var/lib/pacman"),
        repos: Vec::new(),
        current: None,
        requests: Vec::new(),
    };
    assert(repo_views(rd.repos@) =~= Seq::<RepoView>::empty());
    assert(texts(rd.requests@) =~= Seq::<Seq<char>>::empty());
    assert(rd.state() == initial_state());
    let mut i: usize = 0;
    while i < ranges.len()
        invariant
            v@ == text@,
            lines == split_lines(v@),
            ranges@.len() == lines.len(),
            forall|k: int| 0 <= k < ranges@.len() ==> (#[trigger] ranges@[k]).0 <= ranges@[k].1 <= v@.len(),
            forall|k: int|
                0 <= k < ranges@.len() ==> v@.subrange(ranges@[k].0 as int, ranges@[k].1 as int)
                    == #[trigger] split_lines(v@)[k],
            0 <= i <= ranges@.len(),
            rd.state() == conf_fold(lines.take(i as int), mirror_views(mirrors@)),
        decreases ranges@.len() - i,
    {
        let (lo, hi) = ranges[i];
        assert(ranges@[i as int] == (lo, hi));
        assert(lines.take(i + 1).drop_last() =~= lines.take(i as int));
        assert(lines.take(i + 1).last() == lines[i as int]);
        read_line(&mut rd, text, &v, lo, hi, mirrors);
        i = i + 1;
    }
    assert(lines.take(lines.len() as int) =~= lines);
    rd
}

impl PacmanConfig {
    /// The mirror list files that the `Include` lines inside repository
    /// sections name, in order: what `parse` expects the servers of.
    pub fn include_requests(text: &str) -> (r: Vec<String>)
        ensures
            texts(r@) == requests_spec(text@),
    {
        let none: Vec<Vec<String>> = Vec::new();
        let rd = read_all(text, &none);
        assert(mirror_views(none@) =~= Seq::<Seq<Seq<char>>>::empty());
        rd.requests
    }

    /// The configuration `text` describes.  `mirrors[k]` holds the servers
    /// of the `k`-th file that `include_requests` lists; a missing entry
    /// counts as a list without servers.
    pub fn parse(text: &str, mirrors: &Vec<Vec<String>>) -> (r: PacmanConfig)
        ensures
            r@ == config_spec(text@, mirror_views(mirrors@)),
    {
        let mut rd = read_all(text, mirrors);
        let ghost st = rd.state();
        match rd.current.take() {
            Some(r) => rd.repos.push(r),
            None => {},
        }
        let r = PacmanConfig { root_dir: rd.root_dir, db_path: rd.db_path, repos: rd.repos };
        assert(r@.repos =~= closed_repos(st));
        r
    }

    /// The servers a mirror list text names, in order.
    pub fn parse_mirrorlist(text: &str) -> (r: Vec<String>)
        ensures
            texts(r@) == mirror_fold(split_lines(text@)),
    {
        let v = chars_of(text);
        let ranges = line_ranges(&v);
        let ghost lines = split_lines(text@);
        let mut servers: Vec<String> = Vec::new();
        let mut i: usize = 0;
        while i < ranges.len()
            invariant
                v@ == text@,
                lines == split_lines(v@),
                ranges@.len() == lines.len(),
                forall|k: int| 0 <= k < ranges@.len() ==> (#[trigger] ranges@[k]).0 <= ranges@[k].1 <= v@.len(),
                forall|k: int|
                    0 <= k < ranges@.len() ==> v@.subrange(ranges@[k].0 as int, ranges@[k].1 as int)
                        == #[trigger] split_lines(v@)[k],
                0 <= i <= ranges@.len(),
                texts(servers@) == mirror_fold(lines.take(i as int)),
            decreases ranges@.len() - i,
        {
            let (lo, hi) = ranges[i];
            assert(ranges@[i as int] == (lo, hi));
            assert(lines.take(i + 1).drop_last() =~= lines.take(i as int));
            assert(lines.take(i + 1).last() == lines[i as int]);
            let (a, b) = trim_range(&v, lo, hi);
            if a < b && v[a] != '#' {
                assert(v@.subrange(a as int, b as int)[0] == v@[a as int]);
                match split_key_value(&v, a, b) {
                    Some((k, x)) => {
                        if range_equals(&v, k.0, k.1, &chars_of("Server")) {
                            let ghost before = texts(servers@);
                            servers.push(owned_range(text, x.0, x.1));
                            assert(texts(servers@) =~= before.push(x_view(&v, x)));
                        }
                    },
                    None => {},
                }
            }
            i = i + 1;
        }
        assert(lines.take(lines.len() as int) =~= lines);
        servers
    }
}

} // verus!
