//! The textual record format for persisted hooks and configuration: a small
//! TOML-like key/value text, written and parsed entirely by verified code.
//!
//! A hook file is a sequence of `[[commands]]` blocks, each holding
//! `key = "value"` lines for `id`, `command` and optionally `description`.
//! A configuration file holds a single `version = "value"` line. Values are
//! quoted strings with backslash escapes for backslash, quote, newline and
//! tab.

use crate::command::{cmds_view, Command, CommandModel};
use vstd::prelude::*;

verus! {

/// The escaped form of one character inside a quoted value.
pub open spec fn escape_char(c: char) -> Seq<char> {
    if c == '\\' {
        seq!['\\', '\\']
    } else if c == '"' {
        seq!['\\', '"']
    } else if c == '\n' {
        seq!['\\', 'n']
    } else if c == '\t' {
        seq!['\\', 't']
    } else {
        seq![c]
    }
}

/// The escaped form of a value: each character escaped in order.
pub open spec fn escape(s: Seq<char>) -> Seq<char>
    decreases s.len(),
{
    if s.len() == 0 {
        Seq::empty()
    } else {
        escape_char(s[0]) + escape(s.skip(1))
    }
}

/// The character an escape code stands for, if it is a known code.
pub open spec fn unescape_char(c: char) -> Option<char> {
    if c == '\\' {
        Some('\\')
    } else if c == '"' {
        Some('"')
    } else if c == 'n' {
        Some('\n')
    } else if c == 't' {
        Some('\t')
    } else {
        None
    }
}

/// Undoes `escape`: `None` on a raw quote, a dangling backslash or an
/// unknown escape code.
pub open spec fn unescape(s: Seq<char>) -> Option<Seq<char>>
    decreases s.len(),
{
    if s.len() == 0 {
        Some(Seq::empty())
    } else if s[0] == '"' {
        None
    } else if s[0] == '\\' {
        if s.len() == 1 {
            None
        } else {
            match (unescape_char(s[1]), unescape(s.skip(2))) {
                (Some(c), Some(rest)) => Some(seq![c] + rest),
                _ => None,
            }
        }
    } else {
        match unescape(s.skip(1)) {
            Some(rest) => Some(seq![s[0]] + rest),
            None => None,
        }
    }
}

/// Escaping one more character appends that character's escaped form.
proof fn lemma_escape_push(s: Seq<char>, c: char)
    ensures
        escape(s.push(c)) == escape(s) + escape_char(c),
    decreases s.len(),
{
    if s.len() == 0 {
        assert(s.push(c)[0] == c);
        assert(s.push(c).skip(1) =~= Seq::<char>::empty());
        assert(escape(s.push(c)) == escape_char(c) + escape(Seq::<char>::empty()));
        assert(escape(Seq::<char>::empty()) == Seq::<char>::empty());
        assert(escape_char(c) + Seq::<char>::empty() =~= escape_char(c));
        assert(escape(s) + escape_char(c) =~= escape_char(c));
    } else {
        assert(s.push(c)[0] == s[0]);
        assert(s.push(c).skip(1) =~= s.skip(1).push(c));
        assert(escape(s.push(c)) == escape_char(s[0]) + escape(s.skip(1).push(c)));
        lemma_escape_push(s.skip(1), c);
        assert(escape(s) == escape_char(s[0]) + escape(s.skip(1)));
        assert(escape_char(s[0]) + (escape(s.skip(1)) + escape_char(c)) =~= (escape_char(s[0])
            + escape(s.skip(1))) + escape_char(c));
    }
}

/// Appends the escaped form of `s` to `out`.
pub fn escape_push(out: &mut Vec<char>, s: &str)
    ensures
        final(out)@ == old(out)@ + escape(s@),
{
    let n = s.unicode_len();
    let mut j: usize = 0;
    while j < n
        invariant
            j <= n,
            n == s@.len(),
            out@ == old(out)@ + escape(s@.take(j as int)),
        decreases n - j,
    {
        let c = s.get_char(j);
        if c == '\\' {
            out.push('\\');
            out.push('\\');
        } else if c == '"' {
            out.push('\\');
            out.push('"');
        } else if c == '\n' {
            out.push('\\');
            out.push('n');
        } else if c == '\t' {
            out.push('\\');
            out.push('t');
        } else {
            out.push(c);
        }
        proof {
            lemma_escape_push(s@.take(j as int), s@[j as int]);
            assert(s@.take(j as int).push(s@[j as int]) =~= s@.take(j as int + 1));
            assert(out@ =~= old(out)@ + escape(s@.take(j as int + 1)));
        }
        j += 1;
    }
    proof {
        assert(s@.take(n as int) =~= s@);
    }
}

/// Undoes `escape_push` over the region `lo..hi` of `l`.
pub fn unescape_range(l: &Vec<char>, lo: usize, hi: usize) -> (r: Option<Vec<char>>)
    requires
        lo <= hi <= l@.len(),
    ensures
        match r {
            Some(v) => unescape(l@.subrange(lo as int, hi as int)) == Some(v@),
            None => unescape(l@.subrange(lo as int, hi as int)) is None,
        },
{
    let ghost whole = l@.subrange(lo as int, hi as int);
    let mut out: Vec<char> = Vec::new();
    let mut j: usize = lo;
    proof {
        assert(whole.skip(0) =~= whole);
        assert(Seq::<char>::empty() + whole =~= whole);
    }
    while j < hi
        invariant
            lo <= j <= hi <= l@.len(),
            whole == l@.subrange(lo as int, hi as int),
            unescape(whole) == (match unescape(l@.subrange(j as int, hi as int)) {
                Some(rest) => Some(out@ + rest),
                None => None::<Seq<char>>,
            }),
        decreases hi - j,
    {
        let ghost rest = l@.subrange(j as int, hi as int);
        let c = l[j];
        proof {
            assert(rest[0] == c);
        }
        if c == '"' {
            return None;
        } else if c == '\\' {
            if j + 1 == hi {
                proof {
                    assert(rest.len() == 1);
                }
                return None;
            }
            let d = l[j + 1];
            proof {
                assert(rest[1] == d);
            }
            let u: char;
            if d == '\\' {
                u = '\\';
            } else if d == '"' {
                u = '"';
            } else if d == 'n' {
                u = '\n';
            } else if d == 't' {
                u = '\t';
            } else {
                proof {
                    assert(unescape_char(d) is None);
                }
                return None;
            }
            let ghost out_pre = out@;
            out.push(u);
            proof {
                assert(rest.skip(2) =~= l@.subrange(j as int + 2, hi as int));
                match unescape(l@.subrange(j as int + 2, hi as int)) {
                    Some(rp) => {
                        assert(out_pre + (seq![u] + rp) =~= out_pre.push(u) + rp);
                    },
                    None => {},
                }
            }
            j += 2;
        } else {
            let ghost out_pre = out@;
            out.push(c);
            proof {
                assert(rest.skip(1) =~= l@.subrange(j as int + 1, hi as int));
                match unescape(l@.subrange(j as int + 1, hi as int)) {
                    Some(rp) => {
                        assert(out_pre + (seq![c] + rp) =~= out_pre.push(c) + rp);
                    },
                    None => {},
                }
            }
            j += 1;
        }
    }
    proof {
        assert(l@.subrange(j as int, hi as int) =~= Seq::<char>::empty());
        assert(out@ + Seq::<char>::empty() =~= out@);
    }
    Some(out)
}

/// Index of the first occurrence of `c` in `s`, or `-1` if absent.
pub open spec fn find_char(s: Seq<char>, c: char) -> int
    decreases s.len(),
{
    if s.len() == 0 {
        -1
    } else if s[0] == c {
        0
    } else {
        let r = find_char(s.skip(1), c);
        if r == -1 {
            -1
        } else {
            r + 1
        }
    }
}

/// `find_char` returns `-1` exactly when `c` is absent, and otherwise the
/// first index holding `c`.
proof fn lemma_find_char(s: Seq<char>, c: char)
    ensures
        find_char(s, c) == -1 ==> forall|i: int| 0 <= i < s.len() ==> s[i] != c,
        find_char(s, c) != -1 ==> {
            &&& 0 <= find_char(s, c) < s.len()
            &&& s[find_char(s, c)] == c
            &&& forall|i: int| 0 <= i < find_char(s, c) ==> s[i] != c
        },
    decreases s.len(),
{
    if s.len() == 0 {
    } else if s[0] == c {
    } else {
        lemma_find_char(s.skip(1), c);
        let r = find_char(s.skip(1), c);
        if r == -1 {
            assert forall|i: int| 0 <= i < s.len() implies s[i] != c by {
                if i > 0 {
                    assert(s.skip(1)[i - 1] == s[i]);
                }
            }
        } else {
            assert(s.skip(1)[r] == s[r + 1]);
            assert forall|i: int| 0 <= i < r + 1 implies s[i] != c by {
                if i > 0 {
                    assert(s.skip(1)[i - 1] == s[i]);
                }
            }
        }
    }
}

/// Reads a `key = "value"` line: the key before the first `=`, one space on
/// each side of it, and a quoted, escaped value filling the rest.
pub open spec fn parse_kv(l: Seq<char>) -> Option<(Seq<char>, Seq<char>)> {
    let e = find_char(l, '=');
    if e < 2 || e + 2 > l.len() {
        None
    } else if l[e - 1] != ' ' || l[e + 1] != ' ' {
        None
    } else {
        let key = l.take(e - 1);
        let rhs = l.skip(e + 2);
        if find_char(key, ' ') != -1 {
            None
        } else if rhs.len() < 2 || rhs[0] != '"' || rhs[rhs.len() - 1] != '"' {
            None
        } else {
            match unescape(rhs.subrange(1, rhs.len() - 1)) {
                Some(v) => Some((key, v)),
                None => None,
            }
        }
    }
}

/// Whether a line opens a new command block.
pub open spec fn is_header(l: Seq<char>) -> bool {
    l == "[[commands]]"@
}

/// Splitting text on newlines, with `cur` the partial line read so far.
pub open spec fn split_lines_from(s: Seq<char>, cur: Seq<char>) -> Seq<Seq<char>>
    decreases s.len(),
{
    if s.len() == 0 {
        seq![cur]
    } else if s[0] == '\n' {
        seq![cur] + split_lines_from(s.skip(1), Seq::empty())
    } else {
        split_lines_from(s.skip(1), cur.push(s[0]))
    }
}

/// The lines of `s`: maximal newline-free runs. Text without a final
/// newline still ends a line, so the result is never empty.
pub open spec fn split_lines(s: Seq<char>) -> Seq<Seq<char>> {
    split_lines_from(s, Seq::empty())
}

/// The views of a vector of lines.
pub open spec fn lines_view(ls: Seq<Vec<char>>) -> Seq<Seq<char>> {
    ls.map_values(|l: Vec<char>| l@)
}

/// Splits `v` into its lines.
pub fn split_chars(v: &Vec<char>) -> (r: Vec<Vec<char>>)
    ensures
        lines_view(r@) == split_lines(v@),
{
    let mut out: Vec<Vec<char>> = Vec::new();
    let mut cur: Vec<char> = Vec::new();
    let mut i: usize = 0;
    proof {
        assert(v@.skip(0) =~= v@);
        assert(lines_view(out@) + split_lines_from(v@, cur@) =~= split_lines_from(v@, cur@));
    }
    while i < v.len()
        invariant
            i <= v@.len(),
            split_lines(v@) == lines_view(out@) + split_lines_from(v@.skip(i as int), cur@),
        decreases v@.len() - i,
    {
        let ghost rest = v@.skip(i as int);
        let c = v[i];
        proof {
            assert(rest[0] == c);
            assert(rest.skip(1) =~= v@.skip(i as int + 1));
        }
        if c == '\n' {
            let ghost out_pre = out@;
            let ghost cur_pre = cur@;
            out.push(cur);
            cur = Vec::new();
            proof {
                assert(lines_view(out_pre.push(out@[out_pre.len() as int])) =~= lines_view(
                    out_pre,
                ).push(cur_pre));
                assert(lines_view(out_pre) + (seq![cur_pre] + split_lines_from(
                    v@.skip(i as int + 1),
                    Seq::empty(),
                )) =~= (lines_view(out_pre).push(cur_pre)) + split_lines_from(
                    v@.skip(i as int + 1),
                    Seq::empty(),
                ));
            }
        } else {
            cur.push(c);
        }
        i += 1;
    }
    proof {
        assert(v@.skip(i as int) =~= Seq::<char>::empty());
    }
    let ghost out_pre = out@;
    let ghost cur_pre = cur@;
    out.push(cur);
    proof {
        assert(lines_view(out_pre.push(out@[out_pre.len() as int])) =~= lines_view(out_pre).push(
            cur_pre,
        ));
        assert(lines_view(out_pre) + seq![cur_pre] =~= lines_view(out_pre).push(cur_pre));
    }
    out
}

/// Whether the region `lo..hi` of `v` spells exactly `s`.
pub fn chars_range_eq_str(v: &Vec<char>, lo: usize, hi: usize, s: &str) -> (r: bool)
    requires
        lo <= hi <= v@.len(),
    ensures
        r == (v@.subrange(lo as int, hi as int) == s@),
{
    let n = s.unicode_len();
    if hi - lo != n {
        proof {
            assert(v@.subrange(lo as int, hi as int).len() != s@.len());
        }
        return false;
    }
    let mut j: usize = 0;
    while j < n
        invariant
            j <= n,
            lo <= hi <= v@.len(),
            hi - lo == n,
            n == s@.len(),
            forall|k: int| 0 <= k < j ==> v@[lo + k] == s@[k],
        decreases n - j,
    {
        if v[lo + j] != s.get_char(j) {
            proof {
                assert(v@.subrange(lo as int, hi as int)[j as int] != s@[j as int]);
            }
            return false;
        }
        j += 1;
    }
    proof {
        assert(v@.subrange(lo as int, hi as int) =~= s@);
    }
    true
}

/// Reads a `key = "value"` line of `l`, returning the key's end index and
/// the unescaped value.
pub fn parse_kv_line(l: &Vec<char>) -> (r: Option<(usize, Vec<char>)>)
    ensures
        match r {
            Some(kv) => kv.0 <= l@.len() && parse_kv(l@) == Some(
                (l@.take(kv.0 as int), kv.1@),
            ),
            None => parse_kv(l@) is None,
        },
{
    let n = l.len();
    let mut e: usize = 0;
    while e < n && l[e] != '='
        invariant
            e <= n,
            n == l@.len(),
            forall|k: int| 0 <= k < e ==> l@[k] != '=',
        decreases n - e,
    {
        e += 1;
    }
    proof {
        lemma_find_char(l@, '=');
    }
    if e == n {
        proof {
            assert(find_char(l@, '=') == -1) by {
                if find_char(l@, '=') != -1 {
                    assert(l@[find_char(l@, '=')] != '=');
                }
            }
        }
        return None;
    }
    proof {
        assert(l@[e as int] == '=');
        assert(find_char(l@, '=') == e as int) by {
            let f = find_char(l@, '=');
            if f == -1 {
                assert(l@[e as int] != '=');
            } else if f < e as int {
                assert(l@[f] != '=');
            } else if f > e as int {
                assert(l@[e as int] != '=');
            }
        }
    }
    if e < 2 || e > n - 2 {
        return None;
    }
    if l[e - 1] != ' ' || l[e + 1] != ' ' {
        return None;
    }
    let ghost key = l@.take(e as int - 1);
    let mut k: usize = 0;
    while k < e - 1 && l[k] != ' '
        invariant
            k <= e - 1,
            2 <= e < n,
            n == l@.len(),
            forall|j: int| 0 <= j < k ==> l@[j] != ' ',
        decreases e - 1 - k,
    {
        k += 1;
    }
    proof {
        lemma_find_char(key, ' ');
        assert(forall|j: int| 0 <= j < key.len() ==> key[j] == l@[j]);
    }
    if k < e - 1 {
        proof {
            assert(key[k as int] == ' ');
            assert(find_char(key, ' ') != -1) by {
                if find_char(key, ' ') == -1 {
                    assert(key[k as int] != ' ');
                }
            }
        }
        return None;
    }
    proof {
        assert(find_char(key, ' ') == -1) by {
            let f = find_char(key, ' ');
            if f != -1 {
                assert(key[f] != ' ');
            }
        }
    }
    let ghost rhs = l@.skip(e as int + 2);
    if n - (e + 2) < 2 {
        return None;
    }
    proof {
        assert(rhs[0] == l@[e as int + 2]);
        assert(rhs[rhs.len() - 1] == l@[n as int - 1]);
    }
    if l[e + 2] != '"' || l[n - 1] != '"' {
        return None;
    }
    proof {
        assert(rhs.subrange(1, rhs.len() - 1) =~= l@.subrange(e as int + 3, n as int - 1));
    }
    match unescape_range(l, e + 3, n - 1) {
        Some(v) => Some((e - 1, v)),
        None => None,
    }
}

/// A command block while its lines are being read: fields seen so far.
pub struct PartialModel {
    pub id: Option<Seq<char>>,
    pub command: Option<Seq<char>>,
    pub description: Option<Seq<char>>,
}

/// A block with no fields yet, as opened by a `[[commands]]` line.
pub open spec fn empty_partial() -> PartialModel {
    PartialModel { id: None, command: None, description: None }
}

/// Closes a block: a command exists exactly when both required fields
/// were seen.
pub open spec fn complete(p: PartialModel) -> Option<CommandModel> {
    match (p.id, p.command) {
        (Some(i), Some(c)) => Some(CommandModel { id: i, command: c, description: p.description }),
        _ => None,
    }
}

/// Reads hook-file lines from index `i` on: `cur` is the open block, if
/// any, and `acc` the commands already closed. Blank lines are skipped,
/// key/value lines before the first block are ignored, unknown keys inside
/// a block are ignored, and a repeated key, an unreadable line or a block
/// missing `id` or `command` makes the whole text malformed (`None`).
pub open spec fn parse_lines(
    lines: Seq<Seq<char>>,
    i: int,
    cur: Option<PartialModel>,
    acc: Seq<CommandModel>,
) -> Option<Seq<CommandModel>>
    decreases lines.len() - i,
{
    if i < 0 || i >= lines.len() {
        match cur {
            None => Some(acc),
            Some(p) => match complete(p) {
                Some(c) => Some(acc.push(c)),
                None => None,
            },
        }
    } else {
        let l = lines[i];
        if l.len() == 0 {
            parse_lines(lines, i + 1, cur, acc)
        } else if is_header(l) {
            match cur {
                None => parse_lines(lines, i + 1, Some(empty_partial()), acc),
                Some(p) => match complete(p) {
                    Some(c) => parse_lines(lines, i + 1, Some(empty_partial()), acc.push(c)),
                    None => None,
                },
            }
        } else {
            match parse_kv(l) {
                None => None,
                Some(kv) => match cur {
                    None => parse_lines(lines, i + 1, cur, acc),
                    Some(p) => if kv.0 == "id"@ {
                        if p.id is Some {
                            None
                        } else {
                            parse_lines(
                                lines,
                                i + 1,
                                Some(
                                    PartialModel {
                                        id: Some(kv.1),
                                        command: p.command,
                                        description: p.description,
                                    },
                                ),
                                acc,
                            )
                        }
                    } else if kv.0 == "command"@ {
                        if p.command is Some {
                            None
                        } else {
                            parse_lines(
                                lines,
                                i + 1,
                                Some(
                                    PartialModel {
                                        id: p.id,
                                        command: Some(kv.1),
                                        description: p.description,
                                    },
                                ),
                                acc,
                            )
                        }
                    } else if kv.0 == "description"@ {
                        if p.description is Some {
                            None
                        } else {
                            parse_lines(
                                lines,
                                i + 1,
                                Some(
                                    PartialModel {
                                        id: p.id,
                                        command: p.command,
                                        description: Some(kv.1),
                                    },
                                ),
                                acc,
                            )
                        }
                    } else {
                        parse_lines(lines, i + 1, cur, acc)
                    },
                },
            }
        }
    }
}

/// The command list a hook file's text denotes, or `None` if malformed.
pub open spec fn parse_hook_text(s: Seq<char>) -> Option<Seq<CommandModel>> {
    parse_lines(split_lines(s), 0, None, Seq::empty())
}

/// Reads the command blocks of pre-split hook-file lines.
pub fn parse_commands(ls: &Vec<Vec<char>>) -> (r: Option<Vec<Command>>)
    ensures
        match r {
            Some(cs) => parse_lines(lines_view(ls@), 0, None, Seq::empty()) == Some(
                cmds_view(cs@),
            ),
            None => parse_lines(lines_view(ls@), 0, None, Seq::empty()) is None,
        },
{
    let ghost lines = lines_view(ls@);
    let mut acc: Vec<Command> = Vec::new();
    let mut in_block: bool = false;
    let mut pid: Option<Vec<char>> = None;
    let mut pcmd: Option<Vec<char>> = None;
    let mut pdesc: Option<Vec<char>> = None;
    let mut i: usize = 0;
    proof {
        assert(cmds_view(acc@) =~= Seq::<CommandModel>::empty());
    }
    while i < ls.len()
        invariant
            i <= ls@.len(),
            lines == lines_view(ls@),
            !in_block ==> pid is None && pcmd is None && pdesc is None,
            parse_lines(lines, 0, None, Seq::empty()) == parse_lines(
                lines,
                i as int,
                cur_model(in_block, pid, pcmd, pdesc),
                cmds_view(acc@),
            ),
        decreases ls@.len() - i,
    {
        let ghost cur_pre = cur_model(in_block, pid, pcmd, pdesc);
        let ghost acc_pre = cmds_view(acc@);
        let l = &ls[i];
        proof {
            assert(lines[i as int] == l@);
        }
        let is_hdr = chars_range_eq_str(l, 0, l.len(), "[[commands]]");
        proof {
            assert(l@.subrange(0, l@.len() as int) =~= l@);
            assert(is_hdr == is_header(lines[i as int]));
        }
        if l.len() == 0 {
            proof {
                assert(parse_lines(lines, i as int, cur_pre, acc_pre) == parse_lines(
                    lines,
                    i as int + 1,
                    cur_pre,
                    acc_pre,
                ));
            }
        } else if is_hdr {
            if in_block {
                let c = match close_block(&mut pid, &mut pcmd, &mut pdesc) {
                    Some(c) => c,
                    None => {
                        proof {
                            assert(parse_lines(lines, i as int, cur_pre, acc_pre) is None);
                        }
                        return None;
                    },
                };
                let ghost acc_old = acc@;
                acc.push(c);
                proof {
                    assert(cmds_view(acc_old.push(c)) =~= cmds_view(acc_old).push(c@));
                    assert(cur_model(in_block, pid, pcmd, pdesc) == Some(empty_partial()));
                    assert(parse_lines(lines, i as int, cur_pre, acc_pre) == parse_lines(
                        lines,
                        i as int + 1,
                        Some(empty_partial()),
                        acc_pre.push(c@),
                    ));
                }
            } else {
                in_block = true;
                proof {
                    assert(cur_model(in_block, pid, pcmd, pdesc) == Some(empty_partial()));
                    assert(parse_lines(lines, i as int, cur_pre, acc_pre) == parse_lines(
                        lines,
                        i as int + 1,
                        Some(empty_partial()),
                        acc_pre,
                    ));
                }
            }
        } else {
            match parse_kv_line(l) {
                None => {
                    proof {
                        assert(parse_lines(lines, i as int, cur_pre, acc_pre) is None);
                    }
                    return None;
                },
                Some((ke, val)) => {
                    proof {
                        assert(l@.take(ke as int) =~= l@.subrange(0, ke as int));
                    }
                    if !in_block {
                    } else if chars_range_eq_str(l, 0, ke, "id") {
                        if pid.is_some() {
                            proof {
                                assert(parse_lines(lines, i as int, cur_pre, acc_pre) is None);
                            }
                            return None;
                        }
                        pid = Some(val);
                    } else if chars_range_eq_str(l, 0, ke, "command") {
                        if pcmd.is_some() {
                            proof {
                                assert(parse_lines(lines, i as int, cur_pre, acc_pre) is None);
                            }
                            return None;
                        }
                        pcmd = Some(val);
                    } else if chars_range_eq_str(l, 0, ke, "description") {
                        if pdesc.is_some() {
                            proof {
                                assert(parse_lines(lines, i as int, cur_pre, acc_pre) is None);
                            }
                            return None;
                        }
                        pdesc = Some(val);
                    }
                    proof {
                        assert(parse_lines(lines, i as int, cur_pre, acc_pre) == parse_lines(
                            lines,
                            i as int + 1,
                            cur_model(in_block, pid, pcmd, pdesc),
                            acc_pre,
                        ));
                    }
                },
            }
        }
        i += 1;
    }
    if in_block {
        let c = match close_block(&mut pid, &mut pcmd, &mut pdesc) {
            Some(c) => c,
            None => {
                proof {
                    assert(parse_lines(lines, i as int, cur_model(true, pid, pcmd, pdesc), cmds_view(acc@)) is None);
                }
                return None;
            },
        };
        let ghost acc_old = acc@;
        acc.push(c);
        proof {
            assert(cmds_view(acc_old.push(c)) =~= cmds_view(acc_old).push(c@));
        }
    }
    Some(acc)
}

/// The open block the executable parser holds, as the spec sees it.
spec fn cur_model(
    in_block: bool,
    pid: Option<Vec<char>>,
    pcmd: Option<Vec<char>>,
    pdesc: Option<Vec<char>>,
) -> Option<PartialModel> {
    if in_block {
        Some(
            PartialModel {
                id: opt_chars_view(pid),
                command: opt_chars_view(pcmd),
                description: opt_chars_view(pdesc),
            },
        )
    } else {
        None
    }
}

/// The view of an optional character vector.
spec fn opt_chars_view(o: Option<Vec<char>>) -> Option<Seq<char>> {
    match o {
        Some(v) => Some(v@),
        None => None,
    }
}

/// Closes the open block held in the three field slots, clearing them;
/// `None` when `id` or `command` is missing.
fn close_block(
    pid: &mut Option<Vec<char>>,
    pcmd: &mut Option<Vec<char>>,
    pdesc: &mut Option<Vec<char>>,
) -> (r: Option<Command>)
    ensures
        (*final(pid)) is None,
        (*final(pcmd)) is None,
        (*final(pdesc)) is None,
        match r {
            Some(c) => complete(
                PartialModel {
                    id: opt_chars_view(*old(pid)),
                    command: opt_chars_view(*old(pcmd)),
                    description: opt_chars_view(*old(pdesc)),
                },
            ) == Some(c@),
            None => complete(
                PartialModel {
                    id: opt_chars_view(*old(pid)),
                    command: opt_chars_view(*old(pcmd)),
                    description: opt_chars_view(*old(pdesc)),
                },
            ) is None,
        },
{
    let id = pid.take();
    let cmd = pcmd.take();
    let desc = pdesc.take();
    match (id, cmd) {
        (Some(iv), Some(cv)) => {
            let description = match desc {
                Some(d) => Some(crate::text::chars_to_string(&d)),
                None => None,
            };
            Some(
                Command {
                    id: crate::text::chars_to_string(&iv),
                    command: crate::text::chars_to_string(&cv),
                    description,
                },
            )
        },
        _ => None,
    }
}

/// The text of one command block.
pub open spec fn encode_command(c: CommandModel) -> Seq<char> {
    "[[commands]]\nid = \""@ + escape(c.id) + "\"\ncommand = \""@ + escape(c.command) + "\"\n"@
        + (match c.description {
        Some(d) => "description = \""@ + escape(d) + "\"\n"@,
        None => Seq::empty(),
    }) + "\n"@
}

/// The text of a whole hook file: one block per command, in order.
pub open spec fn encode_commands(cs: Seq<CommandModel>) -> Seq<char>
    decreases cs.len(),
{
    if cs.len() == 0 {
        Seq::empty()
    } else {
        encode_command(cs[0]) + encode_commands(cs.skip(1))
    }
}

/// Encoding one more command appends that command's block.
proof fn lemma_encode_push(cs: Seq<CommandModel>, c: CommandModel)
    ensures
        encode_commands(cs.push(c)) == encode_commands(cs) + encode_command(c),
    decreases cs.len(),
{
    if cs.len() == 0 {
        assert(cs.push(c)[0] == c);
        assert(cs.push(c).skip(1) =~= Seq::<CommandModel>::empty());
        assert(encode_commands(cs.push(c)) == encode_command(c) + encode_commands(
            Seq::<CommandModel>::empty(),
        ));
        assert(encode_commands(Seq::<CommandModel>::empty()) == Seq::<char>::empty());
        assert(encode_command(c) + Seq::<char>::empty() =~= encode_command(c));
        assert(encode_commands(cs) + encode_command(c) =~= encode_command(c));
    } else {
        assert(cs.push(c)[0] == cs[0]);
        assert(cs.push(c).skip(1) =~= cs.skip(1).push(c));
        assert(encode_commands(cs.push(c)) == encode_command(cs[0]) + encode_commands(
            cs.skip(1).push(c),
        ));
        lemma_encode_push(cs.skip(1), c);
        assert(encode_commands(cs) == encode_command(cs[0]) + encode_commands(cs.skip(1)));
        assert(encode_command(cs[0]) + (encode_commands(cs.skip(1)) + encode_command(c)) =~= (
        encode_command(cs[0]) + encode_commands(cs.skip(1))) + encode_command(c));
    }
}

/// Renders a command list as hook-file text.
pub fn encode_commands_chars(cs: &Vec<Command>) -> (r: Vec<char>)
    ensures
        r@ == encode_commands(cmds_view(cs@)),
{
    let mut out: Vec<char> = Vec::new();
    let mut i: usize = 0;
    proof {
        assert(cmds_view(cs@).take(0) =~= Seq::<CommandModel>::empty());
    }
    while i < cs.len()
        invariant
            i <= cs@.len(),
            out@ == encode_commands(cmds_view(cs@).take(i as int)),
        decreases cs@.len() - i,
    {
        let ghost out_pre = out@;
        let ghost cv = cmds_view(cs@)[i as int];
        let c = &cs[i];
        proof {
            assert(cv == c@);
        }
        crate::text::push_str_chars(&mut out, "[[commands]]\nid = \"");
        escape_push(&mut out, c.id.as_str());
        crate::text::push_str_chars(&mut out, "\"\ncommand = \"");
        escape_push(&mut out, c.command.as_str());
        crate::text::push_str_chars(&mut out, "\"\n");
        match &c.description {
            Some(d) => {
                crate::text::push_str_chars(&mut out, "description = \"");
                escape_push(&mut out, d.as_str());
                crate::text::push_str_chars(&mut out, "\"\n");
            },
            None => {},
        }
        crate::text::push_str_chars(&mut out, "\n");
        proof {
            assert(out@ =~= out_pre + encode_command(cv));
            lemma_encode_push(cmds_view(cs@).take(i as int), cv);
            assert(cmds_view(cs@).take(i as int).push(cv) =~= cmds_view(cs@).take(i as int + 1));
        }
        i += 1;
    }
    proof {
        assert(cmds_view(cs@).take(cs@.len() as int) =~= cmds_view(cs@));
    }
    out
}

/// The text of a configuration file holding the given version.
pub open spec fn encode_config(version: Seq<char>) -> Seq<char> {
    "version = \""@ + escape(version) + "\"\n"@
}

/// Renders a configuration file's text for the given version.
pub fn encode_config_chars(version: &str) -> (r: Vec<char>)
    ensures
        r@ == encode_config(version@),
{
    let mut out: Vec<char> = Vec::new();
    crate::text::push_str_chars(&mut out, "version = \"");
    escape_push(&mut out, version);
    crate::text::push_str_chars(&mut out, "\"\n");
    proof {
        assert(out@ =~= encode_config(version@));
    }
    out
}

/// Reads configuration-file lines from index `i` on: `found` is the
/// version already seen. Blank lines are skipped, unknown keys are
/// ignored; an unreadable line, a repeated `version` key or a file without
/// one makes the text malformed (`None`).
pub open spec fn parse_config_lines(
    lines: Seq<Seq<char>>,
    i: int,
    found: Option<Seq<char>>,
) -> Option<Seq<char>>
    decreases lines.len() - i,
{
    if i < 0 || i >= lines.len() {
        found
    } else {
        let l = lines[i];
        if l.len() == 0 {
            parse_config_lines(lines, i + 1, found)
        } else {
            match parse_kv(l) {
                None => None,
                Some(kv) => if kv.0 == "version"@ {
                    if found is Some {
                        None
                    } else {
                        parse_config_lines(lines, i + 1, Some(kv.1))
                    }
                } else {
                    parse_config_lines(lines, i + 1, found)
                },
            }
        }
    }
}

/// The version a configuration file's text holds, or `None` if malformed.
pub open spec fn parse_config_text(s: Seq<char>) -> Option<Seq<char>> {
    parse_config_lines(split_lines(s), 0, None)
}

/// Reads the version from pre-split configuration-file lines.
pub fn parse_config(ls: &Vec<Vec<char>>) -> (r: Option<Vec<char>>)
    ensures
        match r {
            Some(v) => parse_config_lines(lines_view(ls@), 0, None) == Some(v@),
            None => parse_config_lines(lines_view(ls@), 0, None) is None,
        },
{
    let ghost lines = lines_view(ls@);
    let mut found: Option<Vec<char>> = None;
    let mut i: usize = 0;
    while i < ls.len()
        invariant
            i <= ls@.len(),
            lines == lines_view(ls@),
            parse_config_lines(lines, 0, None) == parse_config_lines(
                lines,
                i as int,
                opt_chars_view(found),
            ),
        decreases ls@.len() - i,
    {
        let ghost found_pre = opt_chars_view(found);
        let l = &ls[i];
        proof {
            assert(lines[i as int] == l@);
        }
        if l.len() == 0 {
            proof {
                assert(parse_config_lines(lines, i as int, found_pre) == parse_config_lines(
                    lines,
                    i as int + 1,
                    found_pre,
                ));
            }
        } else {
            match parse_kv_line(l) {
                None => {
                    proof {
                        assert(parse_config_lines(lines, i as int, found_pre) is None);
                    }
                    return None;
                },
                Some((ke, val)) => {
                    proof {
                        assert(l@.take(ke as int) =~= l@.subrange(0, ke as int));
                    }
                    if chars_range_eq_str(l, 0, ke, "version") {
                        if found.is_some() {
                            proof {
                                assert(parse_config_lines(lines, i as int, found_pre) is None);
                            }
                            return None;
                        }
                        found = Some(val);
                    }
                    proof {
                        assert(parse_config_lines(lines, i as int, found_pre)
                            == parse_config_lines(lines, i as int + 1, opt_chars_view(found)));
                    }
                },
            }
        }
        i += 1;
    }
    found
}

/// Escaping never emits a newline, so an escaped value stays on one line.
proof fn lemma_escape_clean(s: Seq<char>)
    ensures
        forall|i: int| 0 <= i < escape(s).len() ==> escape(s)[i] != '\n',
    decreases s.len(),
{
    if s.len() > 0 {
        lemma_escape_clean(s.skip(1));
        assert forall|i: int| 0 <= i < escape(s).len() implies escape(s)[i] != '\n' by {
            if i >= escape_char(s[0]).len() {
                assert(escape(s)[i] == escape(s.skip(1))[i - escape_char(s[0]).len()]);
            }
        }
    }
}

/// Unescaping undoes escaping: every value round-trips through its quoted
/// form.
pub proof fn lemma_unescape_escape(s: Seq<char>)
    ensures
        unescape(escape(s)) == Some(s),
    decreases s.len(),
{
    if s.len() == 0 {
        assert(escape(s) == Seq::<char>::empty());
    } else {
        let c = s[0];
        let t = escape(s);
        assert(t == escape_char(c) + escape(s.skip(1)));
        lemma_unescape_escape(s.skip(1));
        if c == '\\' || c == '"' || c == '\n' || c == '\t' {
            assert(escape_char(c).len() == 2);
            assert(t[0] == escape_char(c)[0] && t[1] == escape_char(c)[1]);
            assert(t[0] == '\\');
            assert(unescape_char(t[1]) == Some(c));
            assert(t.skip(2) =~= escape(s.skip(1)));
            assert(unescape(t) == Some(seq![c] + s.skip(1)));
            assert(seq![c] + s.skip(1) =~= s);
        } else {
            assert(escape_char(c).len() == 1);
            assert(t[0] == c);
            assert(t.skip(1) =~= escape(s.skip(1)));
            assert(unescape(t) == Some(seq![c] + s.skip(1)));
            assert(seq![c] + s.skip(1) =~= s);
        }
    }
}

/// Whether a line holds no newline.
spec fn no_newline(l: Seq<char>) -> bool {
    forall|i: int| 0 <= i < l.len() ==> l[i] != '\n'
}

/// Splitting text that starts with one newline-free line and its newline
/// yields that line, then the lines of the remainder.
proof fn lemma_split_append_line(line: Seq<char>, rest: Seq<char>, cur: Seq<char>)
    requires
        no_newline(line),
    ensures
        split_lines_from(line + seq!['\n'] + rest, cur) == seq![cur + line] + split_lines_from(
            rest,
            Seq::empty(),
        ),
    decreases line.len(),
{
    let s = line + seq!['\n'] + rest;
    if line.len() == 0 {
        assert(s[0] == '\n');
        assert(s.skip(1) =~= rest);
        assert(cur + line =~= cur);
    } else {
        assert(s[0] == line[0]);
        assert(line[0] != '\n');
        assert(s.skip(1) =~= line.skip(1) + seq!['\n'] + rest);
        assert(no_newline(line.skip(1))) by {
            assert(forall|i: int|
                0 <= i < line.skip(1).len() ==> line.skip(1)[i] == line[i + 1]);
        }
        lemma_split_append_line(line.skip(1), rest, cur.push(line[0]));
        assert(cur.push(line[0]) + line.skip(1) =~= cur + line);
    }
}

/// A `key = "value"` line, as the encoder writes it.
spec fn kv_line(key: Seq<char>, v: Seq<char>) -> Seq<char> {
    key + " = \""@ + escape(v) + "\""@
}

/// A line the encoder writes for a well-behaved key reads back as exactly
/// that key and value, and stays on one line.
proof fn lemma_parse_kv_line(key: Seq<char>, v: Seq<char>)
    requires
        key.len() >= 1,
        forall|i: int| 0 <= i < key.len() ==> key[i] != '=' && key[i] != ' ' && key[i] != '\n',
    ensures
        parse_kv(kv_line(key, v)) == Some((key, v)),
        no_newline(kv_line(key, v)),
        kv_line(key, v).len() > 0,
{
    reveal_strlit(" = \"");
    reveal_strlit("\"");
    let g = " = \""@;
    let q = "\""@;
    let ev = escape(v);
    let l = kv_line(key, v);
    let k = key.len() as int;
    assert(g.len() == 4 && q.len() == 1);
    assert(g[0] == ' ' && g[1] == '=' && g[2] == ' ' && g[3] == '"');
    assert(q[0] == '"');
    assert(l.len() == k + 4 + ev.len() + 1);
    assert(forall|i: int| 0 <= i < k ==> l[i] == key[i]);
    assert(forall|i: int| 0 <= i < 4 ==> l[k + i] == g[i]);
    assert(forall|i: int| 0 <= i < ev.len() ==> l[k + 4 + i] == ev[i]);
    assert(l[l.len() - 1] == q[0]);
    lemma_escape_clean(v);
    assert(no_newline(l)) by {
        assert forall|i: int| 0 <= i < l.len() implies l[i] != '\n' by {
            if i < k {
            } else if i < k + 4 {
                assert(l[i] == g[i - k]);
            } else if i < k + 4 + ev.len() {
                assert(l[i] == ev[i - k - 4]);
            } else {
                assert(l[i] == q[0]);
            }
        }
    }
    lemma_find_char(l, '=');
    assert(l[k + 1] == '=');
    let f = find_char(l, '=');
    assert(f == k + 1) by {
        if f == -1 {
            assert(l[k + 1] != '=');
        } else if f < k + 1 {
            if f < k {
                assert(l[f] == key[f]);
            } else {
                assert(l[f] == g[0]);
            }
            assert(l[f] != '=');
        } else if f > k + 1 {
            assert(l[k + 1] != '=');
        }
    }
    assert(l[f - 1] == ' ' && l[f + 1] == ' ');
    let keyp = l.take(f - 1);
    assert(keyp =~= key);
    lemma_find_char(keyp, ' ');
    assert(find_char(keyp, ' ') == -1) by {
        let fs = find_char(keyp, ' ');
        if fs != -1 {
            assert(keyp[fs] == ' ');
            assert(key[fs] != ' ');
        }
    }
    let rhs = l.skip(f + 2);
    assert(rhs =~= seq!['"'] + ev + seq!['"']);
    assert(rhs.len() == ev.len() + 2);
    assert(rhs[0] == '"');
    assert(rhs[rhs.len() - 1] == '"');
    assert(rhs.subrange(1, rhs.len() - 1) =~= ev);
    lemma_unescape_escape(v);
    assert(unescape(rhs.subrange(1, rhs.len() - 1)) == Some(v));
    assert(parse_kv(l) == Some((keyp, v)));
}

/// The lines of one encoded command block, in order: header, fields, and
/// the blank separator.
spec fn block_lines(c: CommandModel) -> Seq<Seq<char>> {
    match c.description {
        Some(d) => seq![
            "[[commands]]"@,
            kv_line("id"@, c.id),
            kv_line("command"@, c.command),
            kv_line("description"@, d),
            Seq::empty(),
        ],
        None => seq![
            "[[commands]]"@,
            kv_line("id"@, c.id),
            kv_line("command"@, c.command),
            Seq::empty(),
        ],
    }
}

/// Reveals every literal the encoded form of a block is built from.
proof fn reveal_block_literals()
    ensures
        "[[commands]]\nid = \""@ == "[[commands]]"@ + seq!['\n'] + "id"@ + " = \""@,
        "\"\ncommand = \""@ == "\""@ + seq!['\n'] + "command"@ + " = \""@,
        "description = \""@ == "description"@ + " = \""@,
        "\"\n"@ == "\""@ + seq!['\n'],
        "\n"@ == seq!['\n'],
        "id"@.len() == 2 && "id"@[0] == 'i' && "id"@[1] == 'd',
        "command"@.len() == 7 && "command"@[0] == 'c',
        "description"@.len() == 11 && "description"@[0] == 'd',
        "[[commands]]"@.len() == 12 && "[[commands]]"@[0] == '[',
        no_newline("[[commands]]"@),
        forall|i: int| 0 <= i < "id"@.len() ==> "id"@[i] != '=' && "id"@[i] != ' ' && "id"@[i] != '\n',
        forall|i: int|
            0 <= i < "command"@.len() ==> "command"@[i] != '=' && "command"@[i] != ' '
                && "command"@[i] != '\n',
        forall|i: int|
            0 <= i < "description"@.len() ==> "description"@[i] != '=' && "description"@[i] != ' '
                && "description"@[i] != '\n',
        "command"@ != "id"@,
        "description"@ != "id"@,
        "description"@ != "command"@,
{
    reveal_strlit("[[commands]]\nid = \"");
    reveal_strlit("\"\ncommand = \"");
    reveal_strlit("description = \"");
    reveal_strlit("\"\n");
    reveal_strlit("\n");
    reveal_strlit("[[commands]]");
    reveal_strlit("id");
    reveal_strlit("command");
    reveal_strlit("description");
    reveal_strlit(" = \"");
    reveal_strlit("\"");
    assert("[[commands]]\nid = \""@ =~= "[[commands]]"@ + seq!['\n'] + "id"@ + " = \""@);
    assert("\"\ncommand = \""@ =~= "\""@ + seq!['\n'] + "command"@ + " = \""@);
    assert("description = \""@ =~= "description"@ + " = \""@);
    assert("\"\n"@ =~= "\""@ + seq!['\n']);
    assert("\n"@ =~= seq!['\n']);
}

/// The encoded form of a block holding a description.
#[verifier::rlimit(100)]
#[verifier::spinoff_prover]
proof fn lemma_split_block_with_description(c: CommandModel, d: Seq<char>, rest: Seq<char>)
    requires
        c.description == Some(d),
    ensures
        split_lines_from(encode_command(c) + rest, Seq::empty()) == block_lines(c)
            + split_lines_from(rest, Seq::empty()),
{
    reveal_block_literals();
    let hdr = "[[commands]]"@;
    let idl = kv_line("id"@, c.id);
    let cmdl = kv_line("command"@, c.command);
    let descl = kv_line("description"@, d);
    lemma_parse_kv_line("id"@, c.id);
    lemma_parse_kv_line("command"@, c.command);
    lemma_parse_kv_line("description"@, d);
    let r4 = seq!['\n'] + rest;
    let r3 = descl + seq!['\n'] + r4;
    let r2 = cmdl + seq!['\n'] + r3;
    let r1 = idl + seq!['\n'] + r2;
    assert(encode_command(c) + rest =~= hdr + seq!['\n'] + r1);
    lemma_split_append_line(hdr, r1, Seq::empty());
    lemma_split_append_line(idl, r2, Seq::empty());
    lemma_split_append_line(cmdl, r3, Seq::empty());
    lemma_split_append_line(descl, r4, Seq::empty());
    lemma_split_append_line(Seq::empty(), rest, Seq::empty());
    assert(Seq::empty() + hdr =~= hdr);
    assert(Seq::empty() + idl =~= idl);
    assert(Seq::empty() + cmdl =~= cmdl);
    assert(Seq::empty() + descl =~= descl);
    assert(Seq::empty() + Seq::<char>::empty() =~= Seq::<char>::empty());
    assert(Seq::<char>::empty() + seq!['\n'] + rest =~= r4);
    assert(seq![hdr] + (seq![idl] + (seq![cmdl] + (seq![descl] + (seq![
        Seq::<char>::empty(),
    ] + split_lines_from(rest, Seq::empty()))))) =~= block_lines(c) + split_lines_from(
        rest,
        Seq::empty(),
    ));
}

/// The encoded form of a block holding no description.
#[verifier::rlimit(100)]
#[verifier::spinoff_prover]
proof fn lemma_split_block_without_description(c: CommandModel, rest: Seq<char>)
    requires
        c.description is None,
    ensures
        split_lines_from(encode_command(c) + rest, Seq::empty()) == block_lines(c)
            + split_lines_from(rest, Seq::empty()),
{
    reveal_block_literals();
    let hdr = "[[commands]]"@;
    let idl = kv_line("id"@, c.id);
    let cmdl = kv_line("command"@, c.command);
    lemma_parse_kv_line("id"@, c.id);
    lemma_parse_kv_line("command"@, c.command);
    let r3 = seq!['\n'] + rest;
    let r2 = cmdl + seq!['\n'] + r3;
    let r1 = idl + seq!['\n'] + r2;
    assert(encode_command(c) + rest =~= hdr + seq!['\n'] + r1);
    lemma_split_append_line(hdr, r1, Seq::empty());
    lemma_split_append_line(idl, r2, Seq::empty());
    lemma_split_append_line(cmdl, r3, Seq::empty());
    lemma_split_append_line(Seq::empty(), rest, Seq::empty());
    assert(Seq::empty() + hdr =~= hdr);
    assert(Seq::empty() + idl =~= idl);
    assert(Seq::empty() + cmdl =~= cmdl);
    assert(Seq::empty() + Seq::<char>::empty() =~= Seq::<char>::empty());
    assert(Seq::<char>::empty() + seq!['\n'] + rest =~= r3);
    assert(seq![hdr] + (seq![idl] + (seq![cmdl] + (seq![Seq::<char>::empty()]
        + split_lines_from(rest, Seq::empty())))) =~= block_lines(c) + split_lines_from(
        rest,
        Seq::empty(),
    ));
}

/// The encoded form of a block is its lines, each closed by a newline.
proof fn lemma_split_block(c: CommandModel, rest: Seq<char>)
    ensures
        split_lines_from(encode_command(c) + rest, Seq::empty()) == block_lines(c)
            + split_lines_from(rest, Seq::empty()),
{
    match c.description {
        Some(d) => lemma_split_block_with_description(c, d, rest),
        None => lemma_split_block_without_description(c, rest),
    }
}

/// The lines of a whole encoded command list, block by block.
spec fn blocks_lines(cs: Seq<CommandModel>) -> Seq<Seq<char>>
    decreases cs.len(),
{
    if cs.len() == 0 {
        Seq::empty()
    } else {
        block_lines(cs[0]) + blocks_lines(cs.skip(1))
    }
}

/// Splitting a whole encoded command list yields every block's lines and
/// one final empty line.
proof fn lemma_split_encode(cs: Seq<CommandModel>)
    ensures
        split_lines(encode_commands(cs)) == blocks_lines(cs) + seq![Seq::<char>::empty()],
    decreases cs.len(),
{
    if cs.len() == 0 {
        assert(split_lines(encode_commands(cs)) =~= seq![Seq::<char>::empty()]);
        assert(blocks_lines(cs) + seq![Seq::<char>::empty()] =~= seq![Seq::<char>::empty()]);
    } else {
        lemma_split_block(cs[0], encode_commands(cs.skip(1)));
        lemma_split_encode(cs.skip(1));
        assert(encode_commands(cs) == encode_command(cs[0]) + encode_commands(cs.skip(1)));
        assert(block_lines(cs[0]) + (blocks_lines(cs.skip(1)) + seq![Seq::<char>::empty()]) =~= (
        block_lines(cs[0]) + blocks_lines(cs.skip(1))) + seq![Seq::<char>::empty()]);
    }
}

/// Reading from index `i` is reading the suffix from its start.
proof fn lemma_parse_lines_skip1(
    lines: Seq<Seq<char>>,
    i: int,
    cur: Option<PartialModel>,
    acc: Seq<CommandModel>,
)
    requires
        1 <= i,
        lines.len() >= 1,
    ensures
        parse_lines(lines, i, cur, acc) == parse_lines(lines.skip(1), i - 1, cur, acc),
    decreases lines.len() - i,
{
    if i >= lines.len() {
    } else {
        let l = lines[i];
        assert(lines.skip(1)[i - 1] == l);
        if l.len() == 0 {
            lemma_parse_lines_skip1(lines, i + 1, cur, acc);
        } else if is_header(l) {
            match cur {
                None => lemma_parse_lines_skip1(lines, i + 1, Some(empty_partial()), acc),
                Some(p) => match complete(p) {
                    Some(c) => lemma_parse_lines_skip1(
                        lines,
                        i + 1,
                        Some(empty_partial()),
                        acc.push(c),
                    ),
                    None => {},
                },
            }
        } else {
            match parse_kv(l) {
                None => {},
                Some(kv) => match cur {
                    None => lemma_parse_lines_skip1(lines, i + 1, cur, acc),
                    Some(p) => {
                        if kv.0 == "id"@ {
                            if p.id is None {
                                lemma_parse_lines_skip1(
                                    lines,
                                    i + 1,
                                    Some(
                                        PartialModel {
                                            id: Some(kv.1),
                                            command: p.command,
                                            description: p.description,
                                        },
                                    ),
                                    acc,
                                );
                            }
                        } else if kv.0 == "command"@ {
                            if p.command is None {
                                lemma_parse_lines_skip1(
                                    lines,
                                    i + 1,
                                    Some(
                                        PartialModel {
                                            id: p.id,
                                            command: Some(kv.1),
                                            description: p.description,
                                        },
                                    ),
                                    acc,
                                );
                            }
                        } else if kv.0 == "description"@ {
                            if p.description is None {
                                lemma_parse_lines_skip1(
                                    lines,
                                    i + 1,
                                    Some(
                                        PartialModel {
                                            id: p.id,
                                            command: p.command,
                                            description: Some(kv.1),
                                        },
                                    ),
                                    acc,
                                );
                            }
                        } else {
                            lemma_parse_lines_skip1(lines, i + 1, cur, acc);
                        }
                    },
                },
            }
        }
    }
}

/// Reading block lines, with any closed block pending, appends that block
/// and then every encoded command, in order.
proof fn lemma_parse_blocks(
    cs: Seq<CommandModel>,
    cur: Option<PartialModel>,
    acc: Seq<CommandModel>,
)
    requires
        match cur {
            None => true,
            Some(p) => complete(p) is Some,
        },
    ensures
        ({
            let extra = match cur {
                Some(p) => match complete(p) {
                    Some(c) => seq![c],
                    None => Seq::<CommandModel>::empty(),
                },
                None => Seq::<CommandModel>::empty(),
            };
            parse_lines(blocks_lines(cs) + seq![Seq::<char>::empty()], 0, cur, acc) == Some(
                acc + extra + cs,
            )
        }),
    decreases cs.len(),
{
    reveal_block_literals();
    let ghost extra = match cur {
        Some(p) => match complete(p) {
            Some(c) => seq![c],
            None => Seq::<CommandModel>::empty(),
        },
        None => Seq::<CommandModel>::empty(),
    };
    let lines = blocks_lines(cs) + seq![Seq::<char>::empty()];
    if cs.len() == 0 {
        assert(lines =~= seq![Seq::<char>::empty()]);
        assert(lines[0].len() == 0);
        assert(parse_lines(lines, 0, cur, acc) == parse_lines(lines, 1, cur, acc));
        match cur {
            None => {
                assert(acc + extra + cs =~= acc);
            },
            Some(p) => {
                let c = match complete(p) {
                    Some(c) => c,
                    None => arbitrary(),
                };
                assert(acc + extra + cs =~= acc.push(c));
            },
        }
    } else {
        let c0 = cs[0];
        let bl = block_lines(c0);
        let rest_lines = blocks_lines(cs.skip(1)) + seq![Seq::<char>::empty()];
        assert(lines =~= bl + rest_lines);
        let k = bl.len() as int;
        assert(forall|j: int| 0 <= j < k ==> lines[j] == bl[j]);
        lemma_parse_kv_line("id"@, c0.id);
        lemma_parse_kv_line("command"@, c0.command);
        // line 0: the header opens a block, closing any pending one
        assert(is_header(lines[0]));
        let acc1 = acc + extra;
        assert(parse_lines(lines, 0, cur, acc) == parse_lines(
            lines,
            1,
            Some(empty_partial()),
            acc1,
        )) by {
            match cur {
                None => {
                    assert(acc1 =~= acc);
                },
                Some(p) => {
                    let c = match complete(p) {
                        Some(c) => c,
                        None => arbitrary(),
                    };
                    assert(acc1 =~= acc.push(c));
                },
            }
        }
        // line 1: the id field
        assert(lines[1] == kv_line("id"@, c0.id));
        assert(!is_header(lines[1])) by {
            assert(kv_line("id"@, c0.id)[0] == 'i');
            assert("[[commands]]"@[0] == '[');
        }
        let p1 = PartialModel { id: Some(c0.id), command: None, description: None };
        assert(parse_lines(lines, 1, Some(empty_partial()), acc1) == parse_lines(
            lines,
            2,
            Some(p1),
            acc1,
        ));
        // line 2: the command field
        assert(lines[2] == kv_line("command"@, c0.command));
        assert(!is_header(lines[2])) by {
            assert(kv_line("command"@, c0.command)[0] == 'c');
        }
        let p2 = PartialModel { id: Some(c0.id), command: Some(c0.command), description: None };
        assert(parse_lines(lines, 2, Some(p1), acc1) == parse_lines(lines, 3, Some(p2), acc1));
        let pdone: PartialModel;
        match c0.description {
            Some(d) => {
                // line 3: the description field
                lemma_parse_kv_line("description"@, d);
                assert(lines[3] == kv_line("description"@, d));
                assert(!is_header(lines[3])) by {
                    assert(kv_line("description"@, d)[0] == 'd');
                }
                let p3 = PartialModel {
                    id: Some(c0.id),
                    command: Some(c0.command),
                    description: Some(d),
                };
                assert(parse_lines(lines, 3, Some(p2), acc1) == parse_lines(
                    lines,
                    4,
                    Some(p3),
                    acc1,
                ));
                // line 4: the blank separator
                assert(lines[4].len() == 0);
                assert(parse_lines(lines, 4, Some(p3), acc1) == parse_lines(
                    lines,
                    5,
                    Some(p3),
                    acc1,
                ));
                pdone = p3;
            },
            None => {
                // line 3: the blank separator
                assert(lines[3].len() == 0);
                assert(parse_lines(lines, 3, Some(p2), acc1) == parse_lines(
                    lines,
                    4,
                    Some(p2),
                    acc1,
                ));
                pdone = p2;
            },
        }
        assert(complete(pdone) == Some(c0));
        // step out of this block's lines and read the remainder
        let l1 = lines.skip(1);
        let l2 = l1.skip(1);
        let l3 = l2.skip(1);
        let l4 = l3.skip(1);
        assert(l2 =~= lines.skip(2));
        assert(l3 =~= lines.skip(3));
        assert(l4 =~= lines.skip(4));
        if k == 5 {
            let l5 = l4.skip(1);
            assert(l5 =~= lines.skip(5));
            lemma_parse_lines_skip1(lines, 5, Some(pdone), acc1);
            lemma_parse_lines_skip1(l1, 4, Some(pdone), acc1);
            lemma_parse_lines_skip1(l2, 3, Some(pdone), acc1);
            lemma_parse_lines_skip1(l3, 2, Some(pdone), acc1);
            lemma_parse_lines_skip1(l4, 1, Some(pdone), acc1);
            assert(parse_lines(lines, 5, Some(pdone), acc1) == parse_lines(
                lines.skip(5),
                0,
                Some(pdone),
                acc1,
            ));
            assert(lines.skip(5) =~= rest_lines);
        } else {
            lemma_parse_lines_skip1(lines, 4, Some(pdone), acc1);
            lemma_parse_lines_skip1(l1, 3, Some(pdone), acc1);
            lemma_parse_lines_skip1(l2, 2, Some(pdone), acc1);
            lemma_parse_lines_skip1(l3, 1, Some(pdone), acc1);
            assert(parse_lines(lines, 4, Some(pdone), acc1) == parse_lines(
                lines.skip(4),
                0,
                Some(pdone),
                acc1,
            ));
            assert(lines.skip(4) =~= rest_lines);
        }
        lemma_parse_blocks(cs.skip(1), Some(pdone), acc1);
        assert(acc1 + seq![c0] + cs.skip(1) =~= acc + extra + cs);
    }
}

/// A saved hook file always loads back to the same command list: the
/// record format round-trips.
pub proof fn lemma_hook_file_round_trip(cs: Seq<CommandModel>)
    ensures
        parse_hook_text(encode_commands(cs)) == Some(cs),
{
    lemma_split_encode(cs);
    lemma_parse_blocks(cs, None, Seq::empty());
    assert(Seq::<CommandModel>::empty() + Seq::<CommandModel>::empty() + cs =~= cs);
}

/// A saved configuration file always loads back to the same version: the
/// record format round-trips.
pub proof fn lemma_config_round_trip(v: Seq<char>)
    ensures
        parse_config_text(encode_config(v)) == Some(v),
{
    reveal_strlit("version = \"");
    reveal_strlit("version");
    reveal_strlit(" = \"");
    reveal_strlit("\"\n");
    reveal_strlit("\"");
    assert(forall|i: int|
        0 <= i < "version"@.len() ==> "version"@[i] != '=' && "version"@[i] != ' '
            && "version"@[i] != '\n');
    lemma_parse_kv_line("version"@, v);
    let vline = kv_line("version"@, v);
    assert(encode_config(v) =~= vline + seq!['\n'] + Seq::<char>::empty());
    lemma_split_append_line(vline, Seq::empty(), Seq::empty());
    assert(Seq::<char>::empty() + vline =~= vline);
    let lines = split_lines(encode_config(v));
    assert(lines =~= seq![vline, Seq::<char>::empty()]);
    assert(lines[0] == vline && lines[1].len() == 0);
    assert(vline.len() > 0);
    assert(parse_config_lines(lines, 0, None) == parse_config_lines(lines, 1, Some(v)));
    assert(parse_config_lines(lines, 1, Some(v)) == parse_config_lines(lines, 2, Some(v)));
}

} // verus!
