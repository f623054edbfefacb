use vstd::prelude::*;
use vstd::string::StrSliceExecFns;

verus! {

/// An application listed by a `.desktop` file.
pub struct DesktopEntry {
    pub name: String,
    pub display_name: String,
    pub icon_path: Option<String>,
}

/// The mathematical value of a [`DesktopEntry`].
pub struct EntryView {
    pub name: Seq<char>,
    pub display_name: Seq<char>,
    pub icon_path: Option<Seq<char>>,
}

pub open spec fn opt_string_view(s: Option<String>) -> Option<Seq<char>> {
    match s {
        Some(v) => Some(v@),
        None => None,
    }
}

impl View for DesktopEntry {
    type V = EntryView;

    open spec fn view(&self) -> EntryView {
        EntryView { name: self.name@, display_name: self.display_name@, icon_path: opt_string_view(self.icon_path) }
    }
}

/// The entry that parsing starts from: no name and no icon.
pub open spec fn empty_entry() -> EntryView {
    EntryView { name: Seq::empty(), display_name: Seq::empty(), icon_path: None }
}

impl DesktopEntry {
    /// An entry with empty names and no icon.
    pub fn empty() -> (e: Self)
        ensures
            e@ == empty_entry(),
    {
        Self { name: String::new(), display_name: String::new(), icon_path: None }
    }

    /// Sets the name; the displayed name follows it.
    pub fn set_name(&mut self, name: &str)
        ensures
            final(self)@.name == name@,
            final(self)@.display_name == name@,
            final(self)@.icon_path == old(self)@.icon_path,
    {
        self.name = name.to_owned();
        self.display_name = self.name.clone();
    }

    /// Reads an entry from the contents of a `.desktop` file: the `Name` and
    /// `Icon` keys of its `[Desktop Entry]` section, or `None` when that
    /// section sets `NoDisplay` or `Hidden` to `true`.
    pub fn from_content(content: &str) -> (r: Option<DesktopEntry>)
        ensures
            match r {
                Some(e) => parse_desktop_entry(content@) == Some(e@),
                None => parse_desktop_entry(content@) is None,
            },
    {
        let cs = chars_of(content);
        let len = cs.len();
        let mut entry = DesktopEntry::empty();
        let mut in_section = false;
        let mut i: usize = 0;
        while i < len
            invariant
                cs@ == content@,
                len == cs@.len(),
                i <= len,
                parse_desktop_entry(content@) == parse_from(content@, i as int, in_section, entry@),
            decreases len - i,
        {
            let ghost s = content@;
            let ghost old_e = entry@;
            let ghost old_sec = in_section;
            let end = first_index_in(&cs, '\n', i, len);
            proof {
                lemma_find_char(s, '\n', i as int, end as int);
            }
            let mut line_end = end;
            if end < len && end > i && cs[end - 1] == '\r' {
                line_end = end - 1;
            }
            let ghost line = s.subrange(i as int, line_end as int);
            assert(line == line_text(s, i as int));
            let next = if end < len {
                end + 1
            } else {
                len
            };
            if line_end > i && (cs[i] == '\0' || cs[i] == '#') {
                // A comment: nothing changes.
            } else if in_section {
                if line_end > i + 1 && cs[i + 1] == '[' {
                    return Some(entry);
                }
                let k = first_index_in(&cs, '=', i, line_end);
                proof {
                    assert forall|j: int| 0 <= j < k - i implies line[j] != '=' by {
                        assert(line[j] == cs@[i + j]);
                    }
                    lemma_find_char(line, '=', 0, k - i);
                }
                if k < line_end {
                    assert(line.subrange(0, k - i) == s.subrange(i as int, k as int));
                    assert(line.subrange(k - i + 1, line.len() as int) == s.subrange(
                        k + 1,
                        line_end as int,
                    ));
                    let hides = range_eq(&cs, i, k, &['N', 'o', 'D', 'i', 's', 'p', 'l', 'a', 'y'])
                        || range_eq(&cs, i, k, &['H', 'i', 'd', 'd', 'e', 'n']);
                    if hides && range_eq(&cs, k + 1, line_end, &['t', 'r', 'u', 'e']) {
                        return None;
                    }
                    if range_eq(&cs, i, k, &['N', 'a', 'm', 'e']) {
                        let value = content.substring_char(k + 1, line_end);
                        entry.set_name(value);
                    } else if range_eq(&cs, i, k, &['I', 'c', 'o', 'n']) {
                        let value = content.substring_char(k + 1, line_end);
                        entry.set_icon(value);
                    }
                }
            } else if range_eq(
                &cs,
                i,
                line_end,
                &['[', 'D', 'e', 's', 'k', 't', 'o', 'p', ' ', 'E', 'n', 't', 'r', 'y', ']'],
            ) {
                in_section = true;
            }
            assert(parse_line(line, old_sec, old_e) == LineOutcome::Next(in_section, entry@));
            assert(parse_from(s, end + 1, in_section, entry@) == parse_from(s, next as int, in_section, entry@));
            i = next;
        }
        Some(entry)
    }

    /// The directories that hold `.desktop` files, given the user's home
    /// directory if it is known.
    pub fn get_dirs(home: Option<&str>) -> (r: Vec<String>)
        ensures
            r@.map_values(|d: String| d@) == application_dirs(
                match home {
                    Some(h) => Some(h@),
                    None => None,
                },
            ),
    {
        let mut dirs: Vec<String> = Vec::new();
        dirs.push(String::from_str("/usr/share/applications"));
        dirs.push(String::from_str("/usr/local/share/applications"));
        if let Some(h) = home {
            let cs = chars_of(h);
            let mut user_dir = String::from_str(h);
            if cs.len() > 0 && cs[cs.len() - 1] != '/' {
                user_dir.append("/");
            }
            user_dir.append(".local/share/applications/");
            proof {
                reveal_strlit("/");
                assert("/"@ =~= seq!['/']);
            }
            assert(user_dir@ =~= join_path(h@, ".local/share/applications/"@));
            dirs.push(user_dir);
        }
        proof {
            reveal_strlit("/");
            assert("/"@ =~= seq!['/']);
        }
        assert(dirs@.map_values(|d: String| d@) =~= application_dirs(
            match home {
                Some(h) => Some(h@),
                None => None,
            },
        ));
        dirs
    }

    /// Whether a file of this name is read as a desktop entry: its extension
    /// is `desktop`.
    pub fn is_desktop_file(file_name: &str) -> (b: bool)
        ensures
            b == (file_extension(file_name@) == Some(desktop_extension())),
    {
        let cs = chars_of(file_name);
        let n = cs.len();
        let mut d = n;
        while d > 0 && cs[d - 1] != '.'
            invariant
                d <= n == cs@.len(),
                last_index(cs@, '.', n as int) == last_index(cs@, '.', d as int),
            decreases d,
        {
            d = d - 1;
        }
        let ghost dot = d as int - 1;
        assert(dot == last_index(cs@, '.', n as int));
        if n == 2 && cs[0] == '.' && cs[1] == '.' {
            assert(cs@ =~= seq!['.', '.']);
            return false;
        }
        assert(cs@ != seq!['.', '.']);
        if d <= 1 {
            return false;
        }
        range_eq(&cs, d, n, &['d', 'e', 's', 'k', 't', 'o', 'p'])
    }

    /// The name the entry is searched by.
    pub fn label(&self) -> (l: &String)
        ensures
            l@ == self@.name,
    {
        &self.name
    }

    /// Sets the name that the button shows, leaving the searched name as it is.
    pub fn set_display_label(&mut self, label: String)
        ensures
            final(self)@.display_name == label@,
            final(self)@.name == old(self)@.name,
            final(self)@.icon_path == old(self)@.icon_path,
    {
        self.display_name = label;
    }

    /// Sets the icon, a file path or a name in the icon theme.
    pub fn set_icon(&mut self, icon: &str)
        ensures
            final(self)@.icon_path == Some(icon@),
            final(self)@.name == old(self)@.name,
            final(self)@.display_name == old(self)@.display_name,
    {
        self.icon_path = Some(icon.to_owned());
    }
}


/// `base` joined with the relative path `rel`, with one `/` between them
/// unless `base` is empty or already ends with one.
pub open spec fn join_path(base: Seq<char>, rel: Seq<char>) -> Seq<char> {
    if base.len() > 0 && base.last() != '/' {
        base + seq!['/'] + rel
    } else {
        base + rel
    }
}

/// The directories searched for `.desktop` files: the two system-wide ones,
/// then the user's own under the home directory when it is known.
pub open spec fn application_dirs(home: Option<Seq<char>>) -> Seq<Seq<char>> {
    let system = seq!["/usr/share/applications"@, "/usr/local/share/applications"@];
    match home {
        Some(h) => system.push(join_path(h, ".local/share/applications/"@)),
        None => system,
    }
}

pub open spec fn desktop_extension() -> Seq<char> {
    seq!['d', 'e', 's', 'k', 't', 'o', 'p']
}

/// The index of the last `c` in `s` before position `n`, or -1.
pub open spec fn last_index(s: Seq<char>, c: char, n: int) -> int
    decreases n,
{
    if n <= 0 {
        -1
    } else if s[n - 1] == c {
        n - 1
    } else {
        last_index(s, c, n - 1)
    }
}

/// The extension of a file name: what follows its last `.`, unless there
/// is no `.`, the only `.` starts the name, or the name is `..`.
pub open spec fn file_extension(name: Seq<char>) -> Option<Seq<char>> {
    let d = last_index(name, '.', name.len() as int);
    if name == seq!['.', '.'] || d <= 0 {
        None
    } else {
        Some(name.subrange(d + 1, name.len() as int))
    }
}

/// Index of the first `c` in `s` at or after `i`, or `s.len()` if there is none.
pub open spec fn find_char(s: Seq<char>, c: char, i: int) -> int
    decreases s.len() - i,
{
    if i >= s.len() {
        s.len() as int
    } else if s[i] == c {
        i
    } else {
        find_char(s, c, i + 1)
    }
}

/// `r` is the first index at or after `i` that holds `c`, or the length.
pub proof fn lemma_find_char(s: Seq<char>, c: char, i: int, r: int)
    requires
        0 <= i <= r <= s.len(),
        forall|k: int| i <= k < r ==> s[k] != c,
        r == s.len() || s[r] == c,
    ensures
        find_char(s, c, i) == r,
    decreases r - i,
{
    if i < r {
        lemma_find_char(s, c, i + 1, r);
    }
}

pub proof fn lemma_find_char_bounds(s: Seq<char>, c: char, i: int)
    requires
        0 <= i <= s.len(),
    ensures
        i <= find_char(s, c, i) <= s.len(),
    decreases s.len() - i,
{
    if i < s.len() && s[i] != c {
        lemma_find_char_bounds(s, c, i + 1);
    }
}

/// Collects the characters of `s`.
fn chars_of(s: &str) -> (v: Vec<char>)
    ensures
        v@ == s@,
{
    broadcast use vstd::string::group_string_axioms;
    let mut v: Vec<char> = Vec::new();
    for c in it: s.chars()
        invariant
            v@ == it.seq().take(it.index() as int),
    {
        v.push(c);
    }
    v
}


/// The text of the line that starts at `i`: up to the next newline, without
/// the carriage return of a `\r\n` ending.
pub open spec fn line_text(s: Seq<char>, i: int) -> Seq<char> {
    let e = find_char(s, '\n', i);
    let raw = s.subrange(i, e);
    if e < s.len() && raw.len() > 0 && raw.last() == '\r' {
        raw.drop_last()
    } else {
        raw
    }
}

pub open spec fn section_header() -> Seq<char> {
    seq!['[', 'D', 'e', 's', 'k', 't', 'o', 'p', ' ', 'E', 'n', 't', 'r', 'y', ']']
}

pub open spec fn no_display_key() -> Seq<char> {
    seq!['N', 'o', 'D', 'i', 's', 'p', 'l', 'a', 'y']
}

pub open spec fn hidden_key() -> Seq<char> {
    seq!['H', 'i', 'd', 'd', 'e', 'n']
}

pub open spec fn true_value() -> Seq<char> {
    seq!['t', 'r', 'u', 'e']
}

pub open spec fn name_key() -> Seq<char> {
    seq!['N', 'a', 'm', 'e']
}

pub open spec fn icon_key() -> Seq<char> {
    seq!['I', 'c', 'o', 'n']
}

/// What one line does to the parse.
pub enum LineOutcome {
    /// Go on with the next line, in or out of the `[Desktop Entry]` section.
    Next(bool, EntryView),
    /// The section ended: the entry is complete.
    Stop,
    /// The entry asks not to be shown.
    Reject,
}

/// The effect of one line, given whether the `[Desktop Entry]` section has
/// been entered and the entry read so far.
pub open spec fn parse_line(line: Seq<char>, in_section: bool, e: EntryView) -> LineOutcome {
    if line.len() > 0 && (line[0] == '\0' || line[0] == '#') {
        LineOutcome::Next(in_section, e)
    } else if in_section {
        if line.len() > 1 && line[1] == '[' {
            LineOutcome::Stop
        } else {
            let k = find_char(line, '=', 0);
            if k >= line.len() {
                LineOutcome::Next(true, e)
            } else {
                let key = line.subrange(0, k);
                let value = line.subrange(k + 1, line.len() as int);
                if (key == no_display_key() || key == hidden_key()) && value == true_value() {
                    LineOutcome::Reject
                } else if key == name_key() {
                    LineOutcome::Next(
                        true,
                        EntryView { name: value, display_name: value, icon_path: e.icon_path },
                    )
                } else if key == icon_key() {
                    LineOutcome::Next(
                        true,
                        EntryView {
                            name: e.name,
                            display_name: e.display_name,
                            icon_path: Some(value),
                        },
                    )
                } else {
                    LineOutcome::Next(true, e)
                }
            }
        }
    } else if line == section_header() {
        LineOutcome::Next(true, e)
    } else {
        LineOutcome::Next(false, e)
    }
}

/// The result of parsing the lines of `s` from position `i` on.
pub open spec fn parse_from(s: Seq<char>, i: int, in_section: bool, e: EntryView) -> Option<
    EntryView,
>
    decreases s.len() + 1 - i,
    via parse_from_decreases
{
    if i < 0 || i >= s.len() {
        Some(e)
    } else {
        let end = find_char(s, '\n', i);
        match parse_line(line_text(s, i), in_section, e) {
            LineOutcome::Next(sec, e2) => parse_from(s, end + 1, sec, e2),
            LineOutcome::Stop => Some(e),
            LineOutcome::Reject => None,
        }
    }
}

#[via_fn]
proof fn parse_from_decreases(s: Seq<char>, i: int, in_section: bool, e: EntryView) {
    if 0 <= i < s.len() {
        lemma_find_char_bounds(s, '\n', i);
    }
}

/// The entry described by the contents of a `.desktop` file, or `None` when
/// the file asks for the application to be hidden.
pub open spec fn parse_desktop_entry(s: Seq<char>) -> Option<EntryView> {
    parse_from(s, 0, false, empty_entry())
}

/// A file whose `[Desktop Entry]` section opens with `Hidden=true` or
/// `NoDisplay=true` describes no entry, whatever follows.
pub proof fn lemma_hidden_entry_is_rejected(key: Seq<char>, rest: Seq<char>)
    requires
        key == hidden_key() || key == no_display_key(),
    ensures
        parse_desktop_entry(
            section_header() + seq!['\n'] + key + seq!['='] + true_value() + seq!['\n'] + rest,
        ) is None,
{
    let h = section_header();
    let line2 = key + seq!['='] + true_value();
    let s = h + seq!['\n'] + key + seq!['='] + true_value() + seq!['\n'] + rest;
    assert(s =~= h + seq!['\n'] + line2 + seq!['\n'] + rest);
    let a = h.len() as int;
    assert(forall|k: int| 0 <= k < a ==> s[k] == h[k]);
    assert(s[a] == '\n');
    lemma_find_char(s, '\n', 0, a);
    assert(s.subrange(0, a) =~= h);
    assert(line_text(s, 0) == h);
    assert(parse_line(h, false, empty_entry()) == LineOutcome::Next(true, empty_entry()));
    let b = a + 1 + line2.len();
    assert(forall|k: int| a + 1 <= k < b ==> s[k] == line2[k - a - 1]);
    assert(forall|k: int| 0 <= k < line2.len() ==> line2[k] != '\n');
    assert(s[b] == '\n');
    lemma_find_char(s, '\n', a + 1, b);
    assert(s.subrange(a + 1, b) =~= line2);
    assert(line_text(s, a + 1) == line2);
    let kl = key.len() as int;
    assert(forall|k: int| 0 <= k < kl ==> line2[k] != '=');
    assert(line2[kl] == '=');
    lemma_find_char(line2, '=', 0, kl);
    assert(line2.subrange(0, kl) =~= key);
    assert(line2.subrange(kl + 1, line2.len() as int) =~= true_value());
    assert(parse_line(line2, true, empty_entry()) == LineOutcome::Reject);
    assert(parse_from(s, a + 1, true, empty_entry()) is None);
}

proof fn lemma_find_char_shift(p: Seq<char>, t: Seq<char>, c: char, i: int)
    requires
        0 <= i <= t.len(),
    ensures
        find_char(p + t, c, p.len() + i) == p.len() + find_char(t, c, i),
    decreases t.len() - i,
{
    let s = p + t;
    if i < t.len() {
        assert(s[p.len() + i] == t[i]);
        if t[i] != c {
            lemma_find_char_shift(p, t, c, i + 1);
        }
    }
}

proof fn lemma_parse_from_shift(p: Seq<char>, t: Seq<char>, i: int, in_section: bool, e: EntryView)
    requires
        0 <= i,
    ensures
        parse_from(p + t, p.len() + i, in_section, e) == parse_from(t, i, in_section, e),
    decreases t.len() + 1 - i,
{
    let s = p + t;
    if i < t.len() {
        lemma_find_char_shift(p, t, '\n', i);
        lemma_find_char_bounds(t, '\n', i);
        let end = find_char(t, '\n', i);
        assert(s.subrange(p.len() + i, p.len() + end) =~= t.subrange(i, end));
        assert(line_text(s, p.len() + i) == line_text(t, i));
        match parse_line(line_text(t, i), in_section, e) {
            LineOutcome::Next(sec, e2) => {
                lemma_parse_from_shift(p, t, end + 1, sec, e2);
            },
            _ => {},
        }
    }
}

/// A comment line at the top of a file changes nothing: the file reads as
/// the same entry without it.
pub proof fn lemma_leading_comment_is_ignored(comment: Seq<char>, rest: Seq<char>)
    requires
        forall|k: int| 0 <= k < comment.len() ==> comment[k] != '\n',
    ensures
        parse_desktop_entry(seq!['#'] + comment + seq!['\n'] + rest) == parse_desktop_entry(rest),
{
    let line = seq!['#'] + comment;
    let p = line + seq!['\n'];
    let s = p + rest;
    assert(s =~= seq!['#'] + comment + seq!['\n'] + rest);
    let a = line.len() as int;
    assert(forall|k: int| 0 <= k < a ==> s[k] == line[k]);
    assert(s[a] == '\n');
    lemma_find_char(s, '\n', 0, a);
    assert(s.subrange(0, a) =~= line);
    assert(line_text(s, 0)[0] == '#');
    lemma_parse_from_shift(p, rest, 0, false, empty_entry());
}

/// One line followed by a newline: the parse goes on after it as the line
/// says.
proof fn lemma_line_step(line: Seq<char>, rest: Seq<char>, in_section: bool, e: EntryView)
    requires
        forall|k: int| 0 <= k < line.len() ==> line[k] != '\n',
        line.len() == 0 || line.last() != '\r',
    ensures
        parse_from(line + seq!['\n'] + rest, 0, in_section, e) == match parse_line(
            line,
            in_section,
            e,
        ) {
            LineOutcome::Next(sec, e2) => parse_from(rest, 0, sec, e2),
            LineOutcome::Stop => Some(e),
            LineOutcome::Reject => None,
        },
{
    let p = line + seq!['\n'];
    let s = p + rest;
    assert(s =~= line + seq!['\n'] + rest);
    let a = line.len() as int;
    assert(forall|k: int| 0 <= k < a ==> s[k] == line[k]);
    assert(s[a] == '\n');
    lemma_find_char(s, '\n', 0, a);
    assert(s.subrange(0, a) =~= line);
    assert(line_text(s, 0) == line);
    match parse_line(line, in_section, e) {
        LineOutcome::Next(sec, e2) => {
            lemma_parse_from_shift(p, rest, 0, sec, e2);
        },
        _ => {},
    }
}

/// A file that opens with the `[Desktop Entry]` header reads as the rest
/// of it, inside the section.
proof fn lemma_header_step(rest: Seq<char>)
    ensures
        parse_desktop_entry(section_header() + seq!['\n'] + rest) == parse_from(
            rest,
            0,
            true,
            empty_entry(),
        ),
{
    lemma_line_step(section_header(), rest, false, empty_entry());
}

/// Inside the `[Desktop Entry]` section, a `key=value` line whose key is
/// neither exactly `Name` nor exactly `Icon` (such as `Name[de]` or
/// `GenericName`), and that does not hide the entry, changes nothing.
pub proof fn lemma_other_keys_change_nothing(key: Seq<char>, value: Seq<char>, rest: Seq<char>)
    requires
        key != seq!['N', 'a', 'm', 'e'],
        key != seq!['I', 'c', 'o', 'n'],
        forall|k: int| 0 <= k < key.len() ==> key[k] != '=' && key[k] != '\n',
        forall|k: int| 0 <= k < value.len() ==> value[k] != '\n',
        value.len() == 0 || value.last() != '\r',
        !((key + seq!['='] + value).len() > 1 && (key + seq!['='] + value)[1] == '['),
        !((key == seq!['H', 'i', 'd', 'd', 'e', 'n'] || key == seq![
            'N',
            'o',
            'D',
            'i',
            's',
            'p',
            'l',
            'a',
            'y',
        ]) && value == seq!['t', 'r', 'u', 'e']),
    ensures
        parse_desktop_entry(
            section_header() + seq!['\n'] + key + seq!['='] + value + seq!['\n'] + rest,
        ) == parse_desktop_entry(section_header() + seq!['\n'] + rest),
{
    let line = key + seq!['='] + value;
    let body = line + seq!['\n'] + rest;
    assert(section_header() + seq!['\n'] + key + seq!['='] + value + seq!['\n'] + rest
        =~= section_header() + seq!['\n'] + body);
    lemma_header_step(body);
    lemma_header_step(rest);
    assert forall|k: int| 0 <= k < line.len() implies line[k] != '\n' by {
        if k < key.len() {
            assert(line[k] == key[k]);
        } else if k > key.len() {
            assert(line[k] == value[k - key.len() - 1]);
        }
    }
    if value.len() > 0 {
        assert(line.last() == value.last());
    }
    lemma_line_step(line, rest, true, empty_entry());
    let kl = key.len() as int;
    assert(forall|k: int| 0 <= k < kl ==> line[k] == key[k]);
    assert(line[kl] == '=');
    lemma_find_char(line, '=', 0, kl);
    assert(line.subrange(0, kl) =~= key);
    assert(line.subrange(kl + 1, line.len() as int) =~= value);
    assert(parse_line(line, true, empty_entry()) == LineOutcome::Next(true, empty_entry()));
}

proof fn lemma_name_line(value: Seq<char>, e: EntryView)
    requires
        forall|k: int| 0 <= k < value.len() ==> value[k] != '\n',
        value.len() == 0 || value.last() != '\r',
    ensures
        ({
            let line = seq!['N', 'a', 'm', 'e', '='] + value;
            &&& forall|k: int| 0 <= k < line.len() ==> line[k] != '\n'
            &&& line.last() != '\r'
            &&& parse_line(line, true, e) == LineOutcome::Next(
                true,
                EntryView { name: value, display_name: value, icon_path: e.icon_path },
            )
        }),
{
    let line = seq!['N', 'a', 'm', 'e', '='] + value;
    assert forall|k: int| 0 <= k < line.len() implies line[k] != '\n' by {
        if k >= 5 {
            assert(line[k] == value[k - 5]);
        }
    }
    if value.len() > 0 {
        assert(line.last() == value.last());
    }
    assert(forall|k: int| 0 <= k < 4 ==> line[k] != '=');
    lemma_find_char(line, '=', 0, 4);
    assert(line.subrange(0, 4) =~= name_key());
    assert(line.subrange(5, line.len() as int) =~= value);
}

/// A `Name=value` line in the `[Desktop Entry]` section sets both the name
/// and the displayed name to the value.
pub proof fn lemma_name_line_sets_the_name(value: Seq<char>)
    requires
        forall|k: int| 0 <= k < value.len() ==> value[k] != '\n',
        value.len() == 0 || value.last() != '\r',
    ensures
        parse_desktop_entry(
            section_header() + seq!['\n', 'N', 'a', 'm', 'e', '='] + value + seq!['\n'],
        ) == Some(EntryView { name: value, display_name: value, icon_path: None }),
{
    let line = seq!['N', 'a', 'm', 'e', '='] + value;
    assert(section_header() + seq!['\n', 'N', 'a', 'm', 'e', '='] + value + seq!['\n']
        =~= section_header() + seq!['\n'] + (line + seq!['\n'] + Seq::empty()));
    lemma_header_step(line + seq!['\n'] + Seq::empty());
    lemma_name_line(value, empty_entry());
    lemma_line_step(line, Seq::empty(), true, empty_entry());
}

/// An `Icon=value` line in the `[Desktop Entry]` section sets the icon to
/// the value and leaves the name alone.
pub proof fn lemma_icon_line_sets_the_icon(value: Seq<char>)
    requires
        forall|k: int| 0 <= k < value.len() ==> value[k] != '\n',
        value.len() == 0 || value.last() != '\r',
    ensures
        parse_desktop_entry(
            section_header() + seq!['\n', 'I', 'c', 'o', 'n', '='] + value + seq!['\n'],
        ) == Some(EntryView { name: Seq::empty(), display_name: Seq::empty(), icon_path: Some(value) }),
{
    let line = seq!['I', 'c', 'o', 'n', '='] + value;
    assert(section_header() + seq!['\n', 'I', 'c', 'o', 'n', '='] + value + seq!['\n']
        =~= section_header() + seq!['\n'] + (line + seq!['\n'] + Seq::empty()));
    lemma_header_step(line + seq!['\n'] + Seq::empty());
    assert forall|k: int| 0 <= k < line.len() implies line[k] != '\n' by {
        if k >= 5 {
            assert(line[k] == value[k - 5]);
        }
    }
    if value.len() > 0 {
        assert(line.last() == value.last());
    }
    assert(forall|k: int| 0 <= k < 4 ==> line[k] != '=');
    lemma_find_char(line, '=', 0, 4);
    assert(line.subrange(0, 4) =~= icon_key());
    assert(line.subrange(5, line.len() as int) =~= value);
    lemma_line_step(line, Seq::empty(), true, empty_entry());
}

/// The directories searched are the two system-wide ones, always, then,
/// when the home directory is known, the one under it.
pub proof fn lemma_application_dirs(home: Option<Seq<char>>)
    ensures
        application_dirs(home)[0] == "/usr/share/applications"@,
        application_dirs(home)[1] == "/usr/local/share/applications"@,
        home is None ==> application_dirs(home).len() == 2,
        home matches Some(h) ==> {
            &&& application_dirs(home).len() == 3
            &&& application_dirs(home)[2] == (if h.len() > 0 && h.last() != '/' {
                h + seq!['/'] + ".local/share/applications/"@
            } else {
                h + ".local/share/applications/"@
            })
        },
{
}

proof fn lemma_last_index(s: Seq<char>, c: char, n: int)
    requires
        0 <= n <= s.len(),
    ensures
        -1 <= last_index(s, c, n) < n,
        last_index(s, c, n) >= 0 ==> s[last_index(s, c, n)] == c,
        forall|k: int| last_index(s, c, n) < k < n ==> s[k] != c,
    decreases n,
{
    if n > 0 && s[n - 1] != c {
        lemma_last_index(s, c, n - 1);
    }
}

/// A file name counts as a desktop file exactly when it ends in `.desktop`
/// with something before that.
pub proof fn lemma_desktop_file_names(name: Seq<char>)
    ensures
        file_extension(name) == Some(seq!['d', 'e', 's', 'k', 't', 'o', 'p']) <==> (name.len()
            > 8 && name.subrange(name.len() - 8, name.len() as int) == seq![
            '.',
            'd',
            'e',
            's',
            'k',
            't',
            'o',
            'p',
        ]),
{
    let n = name.len() as int;
    let dot = seq!['.', 'd', 'e', 's', 'k', 't', 'o', 'p'];
    let ext = seq!['d', 'e', 's', 'k', 't', 'o', 'p'];
    lemma_last_index(name, '.', n);
    let d = last_index(name, '.', n);
    if n > 8 && name.subrange(n - 8, n) == dot {
        assert(name[n - 8] == '.');
        assert forall|k: int| n - 8 < k < n implies name[k] != '.' by {
            assert(name[k] == dot[k - (n - 8)]);
        }
        assert(d == n - 8);
        assert(name.len() != 2);
        assert(name.subrange(d + 1, n) =~= ext);
    }
    if file_extension(name) == Some(ext) {
        assert(name.subrange(d + 1, n) == ext);
        assert(n - d - 1 == 7);
        assert(name.subrange(n - 8, n) =~= dot);
    }
}

/// Of two `Name` lines in the `[Desktop Entry]` section the last one wins.
pub proof fn lemma_last_name_line_wins(first: Seq<char>, last: Seq<char>)
    requires
        forall|k: int| 0 <= k < first.len() ==> first[k] != '\n',
        first.len() == 0 || first.last() != '\r',
        forall|k: int| 0 <= k < last.len() ==> last[k] != '\n',
        last.len() == 0 || last.last() != '\r',
    ensures
        parse_desktop_entry(
            section_header() + seq!['\n', 'N', 'a', 'm', 'e', '='] + first + seq![
                '\n',
                'N',
                'a',
                'm',
                'e',
                '=',
            ] + last + seq!['\n'],
        ) == Some(EntryView { name: last, display_name: last, icon_path: None }),
{
    let l1 = seq!['N', 'a', 'm', 'e', '='] + first;
    let l2 = seq!['N', 'a', 'm', 'e', '='] + last;
    let tail = l2 + seq!['\n'] + Seq::empty();
    assert(section_header() + seq!['\n', 'N', 'a', 'm', 'e', '='] + first + seq![
        '\n',
        'N',
        'a',
        'm',
        'e',
        '=',
    ] + last + seq!['\n'] =~= section_header() + seq!['\n'] + (l1 + seq!['\n'] + tail));
    lemma_header_step(l1 + seq!['\n'] + tail);
    lemma_name_line(first, empty_entry());
    lemma_line_step(l1, tail, true, empty_entry());
    let e1 = EntryView { name: first, display_name: first, icon_path: None };
    lemma_name_line(last, e1);
    lemma_line_step(l2, Seq::empty(), true, e1);
}

/// The first index in `from..to` that holds `c`, or `to`.
fn first_index_in(cs: &Vec<char>, c: char, from: usize, to: usize) -> (r: usize)
    requires
        from <= to <= cs@.len(),
    ensures
        from <= r <= to,
        forall|k: int| from <= k < r ==> cs@[k] != c,
        r < to ==> cs@[r as int] == c,
{
    let mut r = from;
    while r < to
        invariant
            from <= r <= to <= cs@.len(),
            forall|k: int| from <= k < r ==> cs@[k] != c,
        decreases to - r,
    {
        if cs[r] == c {
            return r;
        }
        r = r + 1;
    }
    r
}

/// Whether `cs[from..to]` spells `lit`.
fn range_eq(cs: &Vec<char>, from: usize, to: usize, lit: &[char]) -> (r: bool)
    requires
        from <= to <= cs@.len(),
    ensures
        r == (cs@.subrange(from as int, to as int) == lit@),
{
    if to - from != lit.len() {
        return false;
    }
    let mut k: usize = 0;
    while k < lit.len()
        invariant
            from <= to <= cs@.len(),
            to - from == lit@.len(),
            k <= lit@.len(),
            forall|j: int| 0 <= j < k ==> cs@[from + j] == lit@[j],
        decreases lit@.len() - k,
    {
        if cs[from + k] != lit[k] {
            assert(cs@.subrange(from as int, to as int)[k as int] != lit@[k as int]);
            return false;
        }
        k = k + 1;
    }
    assert(cs@.subrange(from as int, to as int) =~= lit@);
    true
}

} // verus!
