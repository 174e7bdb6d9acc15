//! Recognising Codex from what Zellij shows of a pane: its command line and
//! the last lines of its screen.
use vstd::prelude::*;
use crate::text::{
    chars_of, contains_chars, contains_seq, is_white_space, is_whitespace, starts_with_char,
    starts_with_chars, string_of, trim, trim_chars,
};

verus! {

/// The views of a list of strings.
pub open spec fn views(lines: Seq<String>) -> Seq<Seq<char>> {
    lines.map_values(|l: String| l@)
}

/// The views of a list of character vectors.
pub open spec fn char_views(lines: Seq<Vec<char>>) -> Seq<Seq<char>> {
    lines.map_values(|l: Vec<char>| l@)
}

/// Up to `room` non-blank lines of `lines`, trimmed, taken from the bottom
/// up (the last line first).
pub open spec fn footer_from(lines: Seq<Seq<char>>, room: nat) -> Seq<Seq<char>>
    decreases lines.len(),
{
    if lines.len() == 0 || room == 0 {
        seq![]
    } else {
        let t = trim(lines.last());
        if t.len() == 0 {
            footer_from(lines.drop_last(), room)
        } else {
            seq![t] + footer_from(lines.drop_last(), (room - 1) as nat)
        }
    }
}

/// The last six non-blank lines of a screen, trimmed, bottom line first.
pub open spec fn footer(lines: Seq<Seq<char>>) -> Seq<Seq<char>> {
    footer_from(lines, 6)
}

/// A footer line that shows Codex at work: a bullet line offering to interrupt.
pub open spec fn is_working_line(line: Seq<char>) -> bool {
    starts_with_char(line, '•') && contains_seq(line, "esc to interrupt"@)
}

/// A footer line that shows Codex's model banner.
pub open spec fn is_model_line(line: Seq<char>) -> bool {
    "gpt-"@.is_prefix_of(line) && contains_seq(line, " · "@)
}

/// A footer line that shows Codex's input prompt.
pub open spec fn is_prompt_line(line: Seq<char>) -> bool {
    starts_with_char(line, '›')
}

/// What a screen says of Codex's activity: `Some(true)` when a footer line
/// shows it working, `Some(false)` when the bottom line is its model banner
/// and a footer line is its prompt, and `None` otherwise.
pub open spec fn activity(lines: Seq<Seq<char>>) -> Option<bool> {
    let f = footer(lines);
    if exists|i: int| 0 <= i < f.len() && #[trigger] is_working_line(f[i]) {
        Some(true)
    } else if f.len() > 0 && is_model_line(f[0]) && exists|i: int|
        0 <= i < f.len() && #[trigger] is_prompt_line(f[i]) {
        Some(false)
    } else {
        None
    }
}

/// The footer of a screen: its last six non-blank lines, trimmed, bottom first.
pub fn screen_footer(viewport: &[String]) -> (r: Vec<Vec<char>>)
    ensures
        char_views(r@) == footer(views(viewport@)),
{
    let ghost lines = views(viewport@);
    let mut f: Vec<Vec<char>> = Vec::new();
    let mut i: usize = viewport.len();
    assert(lines.take(i as int) =~= lines);
    while i > 0 && f.len() < 6
        invariant
            i <= viewport@.len(),
            lines == views(viewport@),
            f@.len() <= 6,
            footer(lines) == char_views(f@) + footer_from(
                lines.take(i as int),
                (6 - f@.len()) as nat,
            ),
        decreases i,
    {
        let cs = chars_of(viewport[i - 1].as_str());
        let t = trim_chars(&cs);
        let ghost pre = lines.take(i as int);
        assert(pre.drop_last() =~= lines.take(i - 1));
        assert(pre.last() == viewport@[i - 1]@);
        if t.len() > 0 {
            let ghost old_f = f@;
            f.push(t);
            assert(char_views(f@) =~= char_views(old_f) + seq![t@]);
        }
        i = i - 1;
    }
    proof {
        if i == 0 {
            assert(lines.take(0).len() == 0);
        }
        assert(char_views(f@) + footer_from(lines.take(i as int), (6 - f@.len()) as nat)
            =~= char_views(f@));
    }
    f
}

/// What the screen `viewport` says of Codex's activity (see `activity`).
pub fn codex_activity(viewport: &[String]) -> (r: Option<bool>)
    ensures
        r == activity(views(viewport@)),
{
    let f = screen_footer(viewport);
    let ghost fv = char_views(f@);
    let working = chars_of("esc to interrupt");
    let model = chars_of("gpt-");
    let dot = chars_of(" · ");
    let mut k: usize = 0;
    while k < f.len()
        invariant
            k <= f@.len(),
            fv == char_views(f@),
            fv == footer(views(viewport@)),
            working@ == "esc to interrupt"@,
            forall|j: int| 0 <= j < k ==> !#[trigger] is_working_line(fv[j]),
        decreases f@.len() - k,
    {
        let line = &f[k];
        if line.len() > 0 && line[0] == '•' && contains_chars(line, &working) {
            assert(is_working_line(fv[k as int]));
            assert(exists|i: int| 0 <= i < fv.len() && #[trigger] is_working_line(fv[i]));
            return Some(true);
        }
        k = k + 1;
    }
    if f.len() == 0 {
        return None;
    }
    if !(starts_with_chars(&f[0], &model) && contains_chars(&f[0], &dot)) {
        assert(!is_model_line(fv[0]));
        return None;
    }
    let mut j: usize = 0;
    while j < f.len()
        invariant
            j <= f@.len(),
            fv == char_views(f@),
            fv == footer(views(viewport@)),
            f@.len() > 0,
            is_model_line(fv[0]),
            forall|t: int| 0 <= t < fv.len() ==> !#[trigger] is_working_line(fv[t]),
            forall|t: int| 0 <= t < j ==> !#[trigger] is_prompt_line(fv[t]),
        decreases f@.len() - j,
    {
        let line = &f[j];
        if line.len() > 0 && line[0] == '›' {
            assert(is_prompt_line(fv[j as int]));
            assert(exists|i: int| 0 <= i < fv.len() && #[trigger] is_prompt_line(fv[i]));
            return Some(false);
        }
        j = j + 1;
    }
    None
}

/// Characters that separate the words of a shell command.
pub open spec fn is_separator(c: char) -> bool {
    is_white_space(c) || c == '\'' || c == '"' || c == ';' || c == '|' || c == '&'
}

/// The words of `s`: its maximal runs of non-separator characters.
pub open spec fn tokens(s: Seq<char>) -> Seq<Seq<char>>
    decreases s.len(),
{
    if s.len() == 0 {
        seq![]
    } else {
        let p = tokens(s.drop_last());
        let c = s.last();
        if is_separator(c) {
            p
        } else if s.len() >= 2 && !is_separator(s[s.len() - 2]) && p.len() > 0 {
            p.update(p.len() - 1, p.last().push(c))
        } else {
            p.push(seq![c])
        }
    }
}

/// The pieces of `path` between its `/` separators, empty pieces included.
pub open spec fn path_pieces(path: Seq<char>) -> Seq<Seq<char>>
    decreases path.len(),
{
    if path.len() == 0 {
        seq![seq![]]
    } else {
        let r = path_pieces(path.drop_last());
        if path.last() == '/' {
            r.push(seq![])
        } else {
            r.update(r.len() - 1, r.last().push(path.last()))
        }
    }
}

/// The last piece that names something: pieces that are empty or `.` are
/// passed over.
pub open spec fn last_named_piece(pieces: Seq<Seq<char>>) -> Option<Seq<char>>
    decreases pieces.len(),
{
    if pieces.len() == 0 {
        None
    } else if pieces.last().len() == 0 || pieces.last() == seq!['.'] {
        last_named_piece(pieces.drop_last())
    } else {
        Some(pieces.last())
    }
}

/// The final component of `path`, as `Path::file_name` gives it for
/// `/`-separated paths: the last piece other than empty and `.` pieces, and
/// none when there is no such piece (an empty path, a root) or it is `..`.
pub open spec fn path_file_name(path: Seq<char>) -> Option<Seq<char>> {
    match last_named_piece(path_pieces(path)) {
        Some(name) => if name == seq!['.', '.'] {
            None
        } else {
            Some(name)
        },
        None => None,
    }
}

/// `Path::new(path).file_name()`, as text.
#[verifier::external_body]
fn file_name_of(path: &str) -> (r: Option<String>)
    ensures
        r matches Some(n) ==> path_file_name(path@) == Some(n@),
        r is None ==> path_file_name(path@) is None,
{
    std::path::Path::new(path).file_name().and_then(|name| name.to_str()).map(|name| name.to_string())
}

/// The names under which Codex is started.
pub open spec fn is_launcher_name(name: Seq<char>) -> bool {
    name == "codex"@ || name == "codex.js"@ || name == "zellij-codex-launch"@
}

/// A word that names the Codex executable, the Node entry point or the
/// Zellij launcher, possibly by a path.
pub open spec fn names_launcher(token: Seq<char>) -> bool {
    match path_file_name(token) {
        Some(name) => is_launcher_name(name),
        None => false,
    }
}

/// A command argument that contains a word naming a Codex launcher.
pub open spec fn argument_starts_codex(arg: Seq<char>) -> bool {
    exists|j: int| 0 <= j < tokens(arg).len() && #[trigger] names_launcher(tokens(arg)[j])
}

/// A command line one of whose arguments names a Codex launcher.
pub open spec fn starts_codex(command: Seq<Seq<char>>) -> bool {
    exists|i: int| 0 <= i < command.len() && #[trigger] argument_starts_codex(command[i])
}

/// The words of `s`.
pub fn split_words(s: &Vec<char>) -> (r: Vec<Vec<char>>)
    ensures
        char_views(r@) == tokens(s@),
{
    let n = s.len();
    let mut done: Vec<Vec<char>> = Vec::new();
    let mut cur: Vec<char> = Vec::new();
    let mut i: usize = 0;
    assert(s@.take(0) =~= Seq::<char>::empty());
    while i < n
        invariant
            i <= n,
            n == s@.len(),
            tokens(s@.take(i as int)) == char_views(done@) + (if cur@.len() > 0 {
                seq![cur@]
            } else {
                seq![]
            }),
            cur@.len() > 0 <==> (i > 0 && !is_separator(s@[i - 1])),
        decreases n - i,
    {
        let c = s[i];
        let ghost t = s@.take(i + 1);
        assert(t.drop_last() =~= s@.take(i as int));
        assert(t.last() == c);
        let sep = is_whitespace(c) || c == '\'' || c == '"' || c == ';' || c == '|' || c == '&';
        if sep {
            if cur.len() > 0 {
                let ghost old_done = done@;
                let w = cur;
                cur = Vec::new();
                done.push(w);
                assert(char_views(done@) =~= char_views(old_done) + seq![w@]);
            }
            assert(tokens(t) == tokens(s@.take(i as int)));
            assert(char_views(done@) + seq![] =~= char_views(done@));
        } else {
            if cur.len() > 0 {
                assert(t[t.len() - 2] == s@[i - 1]);
                cur.push(c);
                assert(tokens(t) =~= char_views(done@) + seq![cur@]);
            } else {
                cur.push(c);
                assert(cur@ =~= seq![c]);
                assert(tokens(t) =~= char_views(done@) + seq![cur@]);
            }
        }
        i = i + 1;
    }
    assert(s@.take(n as int) =~= s@);
    if cur.len() > 0 {
        let ghost old_done = done@;
        done.push(cur);
        assert(char_views(done@) =~= char_views(old_done) + seq![done@.last()@]);
    } else {
        assert(char_views(done@) + seq![] =~= char_views(done@));
    }
    done
}

/// Whether `name` is one of the Codex launcher names.
fn launcher_name(name: &String) -> (r: bool)
    ensures
        r == is_launcher_name(name@),
{
    let codex = chars_of("codex");
    let node = chars_of("codex.js");
    let launcher = chars_of("zellij-codex-launch");
    let n = chars_of(name.as_str());
    crate::text::equal_chars(&n, &codex) || crate::text::equal_chars(&n, &node)
        || crate::text::equal_chars(&n, &launcher)
}

/// Whether one argument contains a word naming a Codex launcher.
pub fn argument_names_codex(arg: &str) -> (r: bool)
    ensures
        r == argument_starts_codex(arg@),
{
    let cs = chars_of(arg);
    let words = split_words(&cs);
    let ghost ts = tokens(arg@);
    let mut j: usize = 0;
    while j < words.len()
        invariant
            j <= words@.len(),
            ts == char_views(words@),
            ts == tokens(arg@),
            forall|k: int| 0 <= k < j ==> !#[trigger] names_launcher(ts[k]),
        decreases words@.len() - j,
    {
        let word = string_of(words[j].as_slice());
        let hit = match file_name_of(word.as_str()) {
            Some(name) => launcher_name(&name),
            None => false,
        };
        assert(ts[j as int] == word@);
        if hit {
            assert(names_launcher(ts[j as int]));
            return true;
        }
        j = j + 1;
    }
    false
}

/// Whether a pane's command line starts Codex: some argument holds a word
/// (split at white space, quotes, `;`, `|` and `&`) whose file name is
/// `codex`, `codex.js` or `zellij-codex-launch`.
pub fn is_codex_command(command: &[String]) -> (r: bool)
    ensures
        r == starts_codex(views(command@)),
{
    let ghost cv = views(command@);
    let mut i: usize = 0;
    while i < command.len()
        invariant
            i <= command@.len(),
            cv == views(command@),
            forall|k: int| 0 <= k < i ==> !#[trigger] argument_starts_codex(cv[k]),
        decreases command@.len() - i,
    {
        if argument_names_codex(command[i].as_str()) {
            assert(argument_starts_codex(cv[i as int]));
            return true;
        }
        i = i + 1;
    }
    false
}

/// Blank lines among the lines of a screen are passed over: with them
/// taken out, the same footer comes out.
proof fn lemma_footer_skips_blanks(a: Seq<Seq<char>>, blanks: Seq<Seq<char>>, b: Seq<Seq<char>>, room: nat)
    requires
        forall|k: int| 0 <= k < blanks.len() ==> #[trigger] trim(blanks[k]).len() == 0,
    ensures
        footer_from(a + blanks + b, room) == footer_from(a + b, room),
    decreases b.len(), blanks.len(),
{
    if room == 0 {
    } else if b.len() > 0 {
        assert((a + blanks + b).drop_last() =~= a + blanks + b.drop_last());
        assert((a + b).drop_last() =~= a + b.drop_last());
        assert((a + blanks + b).last() == b.last());
        assert((a + b).last() == b.last());
        lemma_footer_skips_blanks(a, blanks, b.drop_last(), room);
        lemma_footer_skips_blanks(a, blanks, b.drop_last(), (room - 1) as nat);
    } else if blanks.len() > 0 {
        assert(a + blanks + b =~= a + blanks);
        assert((a + blanks).drop_last() =~= a + blanks.drop_last() + b);
        assert((a + blanks).last() == blanks.last());
        assert(trim(blanks[blanks.len() - 1]).len() == 0);
        lemma_footer_skips_blanks(a, blanks.drop_last(), b, room);
    } else {
        assert(a + blanks + b =~= a + b);
    }
}

/// Blank lines do not count toward the footer's six lines: taking blank
/// lines out of a screen, wherever they stand, leaves its footer and the
/// activity it shows unchanged.
pub proof fn law_blank_lines_do_not_change_activity(a: Seq<Seq<char>>, blanks: Seq<Seq<char>>, b: Seq<Seq<char>>)
    requires
        forall|k: int| 0 <= k < blanks.len() ==> #[trigger] trim(blanks[k]).len() == 0,
    ensures
        footer(a + blanks + b) == footer(a + b),
        activity(a + blanks + b) == activity(a + b),
{
    lemma_footer_skips_blanks(a, blanks, b, 6);
}

/// Where the last `room` lines are all non-blank, nothing above them
/// reaches the footer.
proof fn lemma_footer_ignores_above(x: Seq<Seq<char>>, b: Seq<Seq<char>>, room: nat)
    requires
        b.len() >= room,
        forall|k: int| b.len() - room <= k < b.len() ==> #[trigger] trim(b[k]).len() > 0,
    ensures
        footer_from(x + b, room) == footer_from(b, room),
    decreases room,
{
    if room > 0 {
        assert((x + b).drop_last() =~= x + b.drop_last());
        assert((x + b).last() == b.last());
        assert(trim(b[b.len() - 1]).len() > 0);
        assert forall|k: int| b.drop_last().len() - (room - 1) <= k < b.drop_last().len() implies #[trigger] trim(
            b.drop_last()[k],
        ).len() > 0 by {
            assert(b.drop_last()[k] == b[k]);
        }
        lemma_footer_ignores_above(x, b.drop_last(), (room - 1) as nat);
    }
}

/// Only the bottom of a screen counts: once its last six lines are all
/// non-blank, whatever stands above them changes neither the footer nor the
/// activity read from it.
pub proof fn law_only_the_last_six_lines_count(above: Seq<Seq<char>>, b: Seq<Seq<char>>)
    requires
        b.len() >= 6,
        forall|k: int| b.len() - 6 <= k < b.len() ==> #[trigger] trim(b[k]).len() > 0,
    ensures
        footer(above + b) == footer(b),
        activity(above + b) == activity(b),
{
    lemma_footer_ignores_above(above, b, 6);
}

/// A non-blank line with fewer lines than `room` below it reaches the
/// footer, trimmed.
proof fn lemma_footer_reaches(x: Seq<Seq<char>>, w: Seq<char>, below: Seq<Seq<char>>, room: nat)
    requires
        trim(w).len() > 0,
        below.len() < room,
    ensures
        footer_from(x.push(w) + below, room).contains(trim(w)),
    decreases below.len(),
{
    let l = x.push(w) + below;
    if below.len() == 0 {
        assert(l =~= x.push(w));
        assert(l.last() == w);
        assert(footer_from(l, room)[0] == trim(w));
    } else {
        assert(l.drop_last() =~= x.push(w) + below.drop_last());
        assert(l.last() == below.last());
        let t = trim(below.last());
        if t.len() == 0 {
            lemma_footer_reaches(x, w, below.drop_last(), room);
        } else {
            lemma_footer_reaches(x, w, below.drop_last(), (room - 1) as nat);
            let rest = footer_from(l.drop_last(), (room - 1) as nat);
            let k = choose|k: int| 0 <= k < rest.len() && rest[k] == trim(w);
            assert(footer_from(l, room)[k + 1] == rest[k]);
        }
    }
}

/// A line that shows Codex at work, trimmed, is read as work as long as at
/// most five lines stand below it, blank or not, whatever stands above.
pub proof fn law_working_line_near_the_bottom_means_working(
    above: Seq<Seq<char>>,
    w: Seq<char>,
    below: Seq<Seq<char>>,
)
    requires
        is_working_line(trim(w)),
        below.len() <= 5,
    ensures
        activity(above + seq![w] + below) == Some(true),
{
    assert(above + seq![w] + below =~= above.push(w) + below);
    lemma_footer_reaches(above, w, below, 6);
    let f = footer(above + seq![w] + below);
    let k = choose|k: int| 0 <= k < f.len() && f[k] == trim(w);
    assert(is_working_line(f[k]));
}

/// A screen whose last non-blank line shows Codex at work, trimmed, is read
/// as working, whatever stands above it.
pub proof fn law_working_bottom_line_means_working(above: Seq<Seq<char>>, w: Seq<char>, blanks: Seq<Seq<char>>)
    requires
        is_working_line(trim(w)),
        forall|k: int| 0 <= k < blanks.len() ==> #[trigger] trim(blanks[k]).len() == 0,
    ensures
        activity(above + seq![w] + blanks) == Some(true),
{
    law_blank_lines_do_not_change_activity(above + seq![w], blanks, seq![]);
    assert(above + seq![w] + blanks + Seq::<Seq<char>>::empty() =~= above + seq![w] + blanks);
    assert(above + seq![w] + Seq::<Seq<char>>::empty() =~= above + seq![w]);
    law_working_line_near_the_bottom_means_working(above, w, seq![]);
    assert(above + seq![w] + Seq::<Seq<char>>::empty() =~= above + seq![w]);
}

/// Every footer line is a line of the screen, trimmed.
proof fn lemma_footer_lines_come_from_the_screen(lines: Seq<Seq<char>>, room: nat)
    ensures
        forall|k: int|
            0 <= k < footer_from(lines, room).len() ==> exists|j: int|
                0 <= j < lines.len() && trim(lines[j]) == #[trigger] footer_from(lines, room)[k],
    decreases lines.len(),
{
    if lines.len() > 0 && room > 0 {
        let d = lines.drop_last();
        let t = trim(lines.last());
        lemma_footer_lines_come_from_the_screen(d, room);
        lemma_footer_lines_come_from_the_screen(d, (room - 1) as nat);
        let f = footer_from(lines, room);
        assert forall|k: int| 0 <= k < f.len() implies exists|j: int|
            0 <= j < lines.len() && trim(lines[j]) == #[trigger] f[k] by {
            if t.len() == 0 {
                let j = choose|j: int| 0 <= j < d.len() && trim(d[j]) == footer_from(d, room)[k];
                assert(lines[j] == d[j]);
            } else if k == 0 {
                assert(trim(lines[lines.len() - 1]) == f[0]);
            } else {
                let rest = footer_from(d, (room - 1) as nat);
                assert(f[k] == rest[k - 1]);
                let j = choose|j: int| 0 <= j < d.len() && trim(d[j]) == rest[k - 1];
                assert(lines[j] == d[j]);
            }
        }
    }
}

/// A screen whose bottom line is Codex's model banner with its prompt just
/// above, and no line that shows work, is read as Codex waiting (not working).
pub proof fn law_prompt_and_banner_at_the_bottom_mean_idle(above: Seq<Seq<char>>, p: Seq<char>, m: Seq<char>)
    requires
        is_prompt_line(trim(p)),
        is_model_line(trim(m)),
        forall|k: int| 0 <= k < above.len() ==> !is_working_line(#[trigger] trim(above[k])),
    ensures
        activity(above + seq![p, m]) == Some(false),
{
    let l = above + seq![p, m];
    assert(trim(m).len() > 0) by {
        assert("gpt-"@.len() == 4) by {
            reveal_strlit("gpt-");
        }
    }
    assert(trim(p).len() > 0);
    assert(l =~= above.push(p) + seq![m]);
    lemma_footer_reaches(above, p, seq![m], 6);
    assert(l.last() == m);
    let f = footer(l);
    assert(f[0] == trim(m));
    lemma_footer_lines_come_from_the_screen(l, 6);
    assert(!is_working_line(trim(p))) by {
        assert(trim(p)[0] == '›');
    }
    assert(!is_working_line(trim(m))) by {
        reveal_strlit("gpt-");
        assert(trim(m)[0] == "gpt-"@[0]);
    }
    assert forall|i: int| 0 <= i < f.len() implies !#[trigger] is_working_line(f[i]) by {
        let j = choose|j: int| 0 <= j < l.len() && trim(l[j]) == f[i];
        if j < above.len() {
            assert(l[j] == above[j]);
        } else if j == above.len() {
            assert(l[j] == p);
        } else {
            assert(l[j] == m);
        }
    }
    let k = choose|k: int| 0 <= k < f.len() && f[k] == trim(p);
    assert(is_prompt_line(f[k]));
}

/// A separator ends a word: the words of `x + y` are those of `x`, then
/// those of `y`, when `x` ends with a separator.
proof fn lemma_tokens_split(x: Seq<char>, y: Seq<char>)
    requires
        x.len() > 0,
        is_separator(x.last()),
    ensures
        tokens(x + y) == tokens(x) + tokens(y),
    decreases y.len(),
{
    if y.len() == 0 {
        assert(x + y =~= x);
        assert(tokens(x) + tokens(y) =~= tokens(x));
    } else {
        let z = x + y;
        let yd = y.drop_last();
        assert(z.drop_last() =~= x + yd);
        assert(z.last() == y.last());
        lemma_tokens_split(x, yd);
        let c = y.last();
        if !is_separator(c) {
            if y.len() >= 2 {
                assert(z[z.len() - 2] == y[y.len() - 2]);
                if !is_separator(y[y.len() - 2]) {
                    lemma_tokens_nonempty(yd);
                    assert(tokens(x) + tokens(yd).update(tokens(yd).len() - 1, tokens(yd).last().push(c)) =~= (tokens(x)
                        + tokens(yd)).update((tokens(x) + tokens(yd)).len() - 1, (tokens(x) + tokens(yd)).last().push(c)));
                } else {
                    assert(tokens(x) + tokens(yd).push(seq![c]) =~= (tokens(x) + tokens(yd)).push(seq![c]));
                }
            } else {
                assert(z[z.len() - 2] == x.last());
                assert(tokens(x) + tokens(yd).push(seq![c]) =~= (tokens(x) + tokens(yd)).push(seq![c]));
            }
        }
    }
}

/// A text that ends inside a word has a word.
proof fn lemma_tokens_nonempty(s: Seq<char>)
    requires
        s.len() > 0,
        !is_separator(s.last()),
    ensures
        tokens(s).len() > 0,
{
}

/// `codex` alone is one word, and it names the Codex executable.
proof fn lemma_codex_word()
    ensures
        tokens("codex"@) == seq!["codex"@],
        names_launcher("codex"@),
{
    reveal_strlit("codex");
    let s1 = seq!['c'];
    let s2 = seq!['c', 'o'];
    let s3 = seq!['c', 'o', 'd'];
    let s4 = seq!['c', 'o', 'd', 'e'];
    let s5 = "codex"@;
    assert(s5 =~= seq!['c', 'o', 'd', 'e', 'x']);
    assert(s1.drop_last() =~= Seq::<char>::empty());
    assert(s2.drop_last() =~= s1);
    assert(s3.drop_last() =~= s2);
    assert(s4.drop_last() =~= s3);
    assert(s5.drop_last() =~= s4);
    assert(!is_separator('c') && !is_separator('o') && !is_separator('d') && !is_separator('e') && !is_separator('x')) by {
        assert('c' as u32 == 99);
        assert('o' as u32 == 111);
        assert('d' as u32 == 100);
        assert('e' as u32 == 101);
        assert('x' as u32 == 120);
    }
    assert(tokens(Seq::<char>::empty()) =~= Seq::<Seq<char>>::empty());
    assert(tokens(s1) =~= seq![s1]);
    assert(s1.push('o') =~= s2 && s2.last() == 'o' && s2[0] == 'c');
    assert(seq![s1].update(0, s1.push('o')) =~= seq![s2]);
    assert(tokens(s2) =~= seq![s2]);
    assert(s2.push('d') =~= s3 && s3.last() == 'd' && s3[1] == 'o');
    assert(seq![s2].update(0, s2.push('d')) =~= seq![s3]);
    assert(tokens(s3) =~= seq![s3]);
    assert(s3.push('e') =~= s4 && s4.last() == 'e' && s4[2] == 'd');
    assert(seq![s3].update(0, s3.push('e')) =~= seq![s4]);
    assert(tokens(s4) =~= seq![s4]);
    assert(s4.push('x') =~= s5 && s5.last() == 'x' && s5[3] == 'e');
    assert(seq![s4].update(0, s4.push('x')) =~= seq![s5]);
    assert(tokens(s5) =~= seq![s5]);
    assert(path_pieces(Seq::<char>::empty()) =~= seq![Seq::<char>::empty()]);
    assert(Seq::<char>::empty().push('c') =~= s1 && s1.last() == 'c');
    assert(seq![Seq::<char>::empty()].update(0, Seq::<char>::empty().push('c')) =~= seq![s1]);
    assert(path_pieces(s1) =~= seq![s1]);
    assert(seq![s1].update(0, s1.push('o')) =~= seq![s2]);
    assert(path_pieces(s2) =~= seq![s2]);
    assert(seq![s2].update(0, s2.push('d')) =~= seq![s3]);
    assert(path_pieces(s3) =~= seq![s3]);
    assert(seq![s3].update(0, s3.push('e')) =~= seq![s4]);
    assert(path_pieces(s4) =~= seq![s4]);
    assert(seq![s4].update(0, s4.push('x')) =~= seq![s5]);
    assert(path_pieces(s5) =~= seq![s5]);
    assert(s5 != seq!['.'] && s5 != seq!['.', '.']) by {
        assert(s5.len() == 5);
    }
    assert(last_named_piece(path_pieces(s5)) == Some(s5));
    assert(path_file_name(s5) == Some(s5));
}

/// The shell's word breaks: white space, quotes, `;`, `|` and `&`.
pub open spec fn breaks_words(c: char) -> bool {
    c == ' ' || c == '\t' || c == '\n' || c == '"' || c == '\'' || c == ';' || c == '|' || c == '&'
}

/// `codex` standing as a word of an argument, between any of the shell's
/// word breaks, whatever comes before and after, starts Codex.
pub proof fn law_codex_between_word_breaks_starts_codex(before: Seq<char>, open: char, close: char, after: Seq<char>)
    requires
        breaks_words(open),
        breaks_words(close),
    ensures
        argument_starts_codex(before + seq![open] + "codex"@ + seq![close] + after),
{
    assert(is_separator(open) && is_separator(close)) by {
        assert(' ' as u32 == 32);
        assert('\t' as u32 == 9);
        assert('\n' as u32 == 10);
    }
    lemma_codex_word();
    let x = before + seq![open];
    let c = "codex"@ + seq![close];
    let s = before + seq![open] + "codex"@ + seq![close] + after;
    assert(s =~= x + (c + after));
    lemma_tokens_split(x, c + after);
    lemma_tokens_split(c, after);
    assert(c.drop_last() =~= "codex"@);
    assert(tokens(c) =~= seq!["codex"@]);
    let k = tokens(x).len() as int;
    assert(tokens(s)[k] == "codex"@);
    assert(names_launcher(tokens(s)[k]));
}

/// `codex` as the last word of an argument, after any of the shell's word
/// breaks, or as the whole argument, starts Codex.
pub proof fn law_codex_as_last_word_starts_codex(before: Seq<char>, open: char)
    requires
        breaks_words(open),
    ensures
        argument_starts_codex(before + seq![open] + "codex"@),
        argument_starts_codex("codex"@),
{
    assert(is_separator(open)) by {
        assert(' ' as u32 == 32);
        assert('\t' as u32 == 9);
        assert('\n' as u32 == 10);
    }
    lemma_codex_word();
    let x = before + seq![open];
    lemma_tokens_split(x, "codex"@);
    let k = tokens(x).len() as int;
    assert(tokens(x + "codex"@)[k] == "codex"@);
    assert(names_launcher(tokens(x + "codex"@)[k]));
    assert(names_launcher(tokens("codex"@)[0]));
}

/// A run of characters without separators is one word.
proof fn lemma_one_word(w: Seq<char>)
    requires
        w.len() > 0,
        forall|i: int| 0 <= i < w.len() ==> !is_separator(#[trigger] w[i]),
    ensures
        tokens(w) == seq![w],
    decreases w.len(),
{
    let d = w.drop_last();
    let c = w.last();
    assert(!is_separator(w[w.len() - 1]));
    if w.len() == 1 {
        assert(d.len() == 0);
        assert(tokens(d) =~= Seq::<Seq<char>>::empty());
        assert(seq![c] =~= w);
        assert(seq![seq![c]] =~= seq![w]);
    } else {
        assert forall|i: int| 0 <= i < d.len() implies !is_separator(#[trigger] d[i]) by {
            assert(d[i] == w[i]);
        }
        lemma_one_word(d);
        assert(!is_separator(w[w.len() - 2]));
        assert(d.push(c) =~= w);
        assert(seq![d].update(0, d.push(c)) =~= seq![w]);
    }
}

/// The pieces of a path with a last piece `w` (no `/` in it) after a `/`.
proof fn lemma_path_pieces_last(x: Seq<char>, w: Seq<char>)
    requires
        forall|i: int| 0 <= i < w.len() ==> #[trigger] w[i] != '/',
    ensures
        path_pieces(x.push('/') + w) == path_pieces(x).push(w),
    decreases w.len(),
{
    if w.len() == 0 {
        assert(x.push('/') + w =~= x.push('/'));
        assert(x.push('/').drop_last() =~= x);
        assert(x.push('/').last() == '/');
        assert(path_pieces(x.push('/')) == path_pieces(x).push(seq![]));
        assert(w =~= Seq::<char>::empty());
    } else {
        let d = w.drop_last();
        assert forall|i: int| 0 <= i < d.len() implies #[trigger] d[i] != '/' by {
            assert(d[i] == w[i]);
        }
        lemma_path_pieces_last(x, d);
        assert((x.push('/') + w).drop_last() =~= x.push('/') + d);
        assert((x.push('/') + w).last() == w.last());
        assert(w[w.len() - 1] != '/');
        assert(d.push(w.last()) =~= w);
        let r = path_pieces(x.push('/') + d);
        assert(r == path_pieces(x).push(d));
        assert(r.last() == d);
        assert(path_pieces(x.push('/') + w) == r.update(r.len() - 1, r.last().push(w.last())));
        assert(path_pieces(x).push(d).update(path_pieces(x).len() as int, d.push(w.last())) =~= path_pieces(x).push(w));
    }
}

/// The pieces of a path made of one piece `w` (no `/` in it).
proof fn lemma_path_pieces_one(w: Seq<char>)
    requires
        forall|i: int| 0 <= i < w.len() ==> #[trigger] w[i] != '/',
    ensures
        path_pieces(w) == seq![w],
    decreases w.len(),
{
    if w.len() > 0 {
        let d = w.drop_last();
        assert forall|i: int| 0 <= i < d.len() implies #[trigger] d[i] != '/' by {
            assert(d[i] == w[i]);
        }
        lemma_path_pieces_one(d);
        assert(w[w.len() - 1] != '/');
        assert(d.push(w.last()) =~= w);
        assert(seq![d].update(0, d.push(w.last())) =~= seq![w]);
    } else {
        assert(w =~= Seq::<char>::empty());
    }
}

/// The names Codex is started under.
pub open spec fn launcher_names(name: Seq<char>) -> bool {
    name == "codex"@ || name == "codex.js"@ || name == "zellij-codex-launch"@
}

/// Each launcher name is one word without `/`, other than `.` and `..`.
proof fn lemma_launcher_name_chars(name: Seq<char>)
    requires
        launcher_names(name),
    ensures
        name.len() > 2,
        forall|i: int| 0 <= i < name.len() ==> #[trigger] name[i] != '/' && !is_separator(name[i]),
{
    reveal_strlit("codex");
    reveal_strlit("codex.js");
    reveal_strlit("zellij-codex-launch");
    assert('c' as u32 == 99);
    assert('o' as u32 == 111);
    assert('d' as u32 == 100);
    assert('e' as u32 == 101);
    assert('x' as u32 == 120);
    assert('.' as u32 == 46);
    assert('j' as u32 == 106);
    assert('s' as u32 == 115);
    assert('z' as u32 == 122);
    assert('l' as u32 == 108);
    assert('i' as u32 == 105);
    assert('-' as u32 == 45);
    assert('a' as u32 == 97);
    assert('u' as u32 == 117);
    assert('n' as u32 == 110);
    assert('h' as u32 == 104);
}

/// Any of the launcher names, alone or at the end of a path, standing as a
/// word of an argument between word breaks, starts Codex.
pub proof fn law_launcher_word_starts_codex(
    before: Seq<char>,
    open: char,
    dir: Seq<char>,
    name: Seq<char>,
    close: char,
    after: Seq<char>,
)
    requires
        breaks_words(open),
        breaks_words(close),
        launcher_names(name),
        forall|i: int| 0 <= i < dir.len() ==> !is_white_space(#[trigger] dir[i]) && !breaks_words(dir[i]),
    ensures
        argument_starts_codex(before + seq![open] + name + seq![close] + after),
        argument_starts_codex(before + seq![open] + dir + "/"@ + name + seq![close] + after),
{
    assert(is_separator(open) && is_separator(close)) by {
        assert(' ' as u32 == 32);
        assert('\t' as u32 == 9);
        assert('\n' as u32 == 10);
    }
    reveal_strlit("/");
    assert('/' as u32 == 47);
    lemma_launcher_name_chars(name);
    let x = before + seq![open];
    // The name alone.
    lemma_one_word(name);
    lemma_path_pieces_one(name);
    assert(name != seq!['.'] && name != seq!['.', '.']);
    assert(names_launcher(name));
    let s1 = before + seq![open] + name + seq![close] + after;
    let c1 = name.push(close);
    assert(s1 =~= x + (c1 + after));
    lemma_tokens_split(x, c1 + after);
    lemma_tokens_split(c1, after);
    assert(c1.drop_last() =~= name);
    assert(tokens(c1) =~= tokens(name));
    assert(tokens(s1)[tokens(x).len() as int] == name);
    // The name at the end of a path.
    let path = dir + "/"@ + name;
    assert(path =~= dir.push('/') + name);
    assert forall|i: int| 0 <= i < path.len() implies !is_separator(#[trigger] path[i]) by {
        if i < dir.len() {
            assert(path[i] == dir[i]);
        } else if i == dir.len() {
            assert(path[i] == '/');
        } else {
            assert(path[i] == name[i - dir.len() - 1]);
        }
    }
    lemma_one_word(path);
    lemma_path_pieces_last(dir, name);
    assert(last_named_piece(path_pieces(path)) == Some(name));
    assert(names_launcher(path));
    let s2 = before + seq![open] + dir + "/"@ + name + seq![close] + after;
    let c2 = path.push(close);
    assert(s2 =~= x + (c2 + after));
    lemma_tokens_split(x, c2 + after);
    lemma_tokens_split(c2, after);
    assert(c2.drop_last() =~= path);
    assert(tokens(c2) =~= tokens(path));
    assert(tokens(s2)[tokens(x).len() as int] == path);
}

/// A double quote separates words: an argument in which `codex` stands
/// between double quotes, whatever comes before and after, starts Codex.
pub proof fn law_quoted_codex_starts_codex(before: Seq<char>, after: Seq<char>)
    ensures
        argument_starts_codex(before + "\"codex\""@ + after),
{
    reveal_strlit("\"codex\"");
    reveal_strlit("codex");
    assert(before + "\"codex\""@ + after =~= before + seq!['"'] + "codex"@ + seq!['"'] + after);
    law_codex_between_word_breaks_starts_codex(before, '"', '"', after);
}

} // verus!
