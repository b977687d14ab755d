//! The lite node's configuration file: `[section]` headers and
//! `key = "value"` lines, with `#` comments outside quotes. Only the four
//! node metadata keys are accepted; anything else is an error.
use vstd::prelude::*;
use vstd::string::{StrSliceExecFns, StringExecFns};

verus! {

#[derive(Debug, Clone, PartialEq, Eq)]
pub struct ChronosLiteConfig {
    pub node_name: String,
    pub node_id_fp: String,
    pub operating_role: String,
    pub jurisdiction: String,
}

#[derive(Debug, Clone, PartialEq, Eq)]
pub enum ConfigError {
    Io(String),
    InvalidLine(String),
    InvalidKey(String),
}

/// The four settings as text.
pub type ConfigModel = (Seq<char>, Seq<char>, Seq<char>, Seq<char>);

pub open spec fn config_model(c: ChronosLiteConfig) -> ConfigModel {
    (c.node_name@, c.node_id_fp@, c.operating_role@, c.jurisdiction@)
}

/// The settings before any line is read.
pub open spec fn default_model() -> ConfigModel {
    ("chronos-lite-local"@, "local-dev-node.chr"@, "prototype"@, "local"@)
}

impl Default for ChronosLiteConfig {
    fn default() -> (r: Self)
        ensures
            config_model(r) == default_model(),
    {
        Self {
            node_name: String::from_str("chronos-lite-local"),
            node_id_fp: String::from_str("local-dev-node.chr"),
            operating_role: String::from_str("prototype"),
            jurisdiction: String::from_str("local"),
        }
    }
}

/// `char::is_whitespace`: the Unicode `White_Space` characters.
pub open spec fn is_ws_char(c: char) -> bool {
    let v = c as u32;
    ||| v == 0x20
    ||| 0x09 <= v <= 0x0d
    ||| v == 0x85
    ||| v == 0xa0
    ||| v == 0x1680
    ||| 0x2000 <= v <= 0x200a
    ||| v == 0x2028
    ||| v == 0x2029
    ||| v == 0x202f
    ||| v == 0x205f
    ||| v == 0x3000
}

pub(crate) fn is_ws(c: char) -> (r: bool)
    ensures
        r == is_ws_char(c),
{
    let v = c as u32;
    v == 0x20 || (0x09 <= v && v <= 0x0d) || v == 0x85 || v == 0xa0 || v == 0x1680 || (0x2000 <= v && v
        <= 0x200a) || v == 0x2028 || v == 0x2029 || v == 0x202f || v == 0x205f || v == 0x3000
}

/// Number of leading whitespace characters from `i` on.
pub open spec fn ws_from(s: Seq<char>, i: int) -> int
    decreases s.len() - i,
{
    if i < 0 || i >= s.len() || !is_ws_char(s[i]) {
        i
    } else {
        ws_from(s, i + 1)
    }
}

/// Where trailing whitespace before `j` begins.
pub open spec fn ws_before(s: Seq<char>, lo: int, j: int) -> int
    decreases j - lo,
{
    if j <= lo || !is_ws_char(s[j - 1]) {
        j
    } else {
        ws_before(s, lo, j - 1)
    }
}

/// `str::trim`.
pub open spec fn trim_chars(s: Seq<char>) -> Seq<char> {
    let a = ws_from(s, 0);
    s.subrange(a, ws_before(s, a, s.len() as int))
}

pub proof fn lemma_ws_from_bounds(s: Seq<char>, i: int)
    requires
        0 <= i <= s.len(),
    ensures
        i <= ws_from(s, i) <= s.len(),
    decreases s.len() - i,
{
    if i < s.len() && is_ws_char(s[i]) {
        lemma_ws_from_bounds(s, i + 1);
    }
}

proof fn lemma_ws_before_bounds(s: Seq<char>, lo: int, j: int)
    requires
        lo <= j,
    ensures
        lo <= ws_before(s, lo, j) <= j,
    decreases j - lo,
{
    if j > lo && is_ws_char(s[j - 1]) {
        lemma_ws_before_bounds(s, lo, j - 1);
    }
}

/// The bounds of `s` trimmed of whitespace.
fn trim_range(s: &str) -> (r: (usize, usize))
    ensures
        r.0 <= r.1 <= s@.len(),
        s@.subrange(r.0 as int, r.1 as int) == trim_chars(s@),
{
    let n = s.unicode_len();
    let mut a: usize = 0;
    while a < n && is_ws(s.get_char(a))
        invariant
            a <= n == s@.len(),
            ws_from(s@, 0) == ws_from(s@, a as int),
        decreases n - a,
    {
        a = a + 1;
    }
    proof {
        lemma_ws_from_bounds(s@, 0);
    }
    let mut b: usize = n;
    while b > a && is_ws(s.get_char(b - 1))
        invariant
            a <= b <= n == s@.len(),
            a == ws_from(s@, 0),
            ws_before(s@, a as int, n as int) == ws_before(s@, a as int, b as int),
        decreases b,
    {
        b = b - 1;
    }
    (a, b)
}

/// Where a comment starts: the first `#` outside double quotes, scanning
/// from `i` with the quote state `in_str`; the length if none.
pub open spec fn comment_at(s: Seq<char>, i: int, in_str: bool) -> int
    decreases s.len() - i,
{
    if i < 0 || i >= s.len() {
        s.len() as int
    } else if s[i] == '"' {
        comment_at(s, i + 1, !in_str)
    } else if s[i] == '#' && !in_str {
        i
    } else {
        comment_at(s, i + 1, in_str)
    }
}

proof fn lemma_comment_at_bounds(s: Seq<char>, i: int, in_str: bool)
    requires
        0 <= i <= s.len(),
    ensures
        i <= comment_at(s, i, in_str) <= s.len(),
    decreases s.len() - i,
{
    if i < s.len() {
        if s[i] == '"' {
            lemma_comment_at_bounds(s, i + 1, !in_str);
        } else if !(s[i] == '#' && !in_str) {
            lemma_comment_at_bounds(s, i + 1, in_str);
        }
    }
}

/// The first `c` at or after `i`, or the length.
pub open spec fn char_at_or_end(s: Seq<char>, i: int, c: char) -> int
    decreases s.len() - i,
{
    if i < 0 || i >= s.len() {
        s.len() as int
    } else if s[i] == c {
        i
    } else {
        char_at_or_end(s, i + 1, c)
    }
}

proof fn lemma_char_at_bounds(s: Seq<char>, i: int, c: char)
    requires
        0 <= i <= s.len(),
    ensures
        i <= char_at_or_end(s, i, c) <= s.len(),
        char_at_or_end(s, i, c) < s.len() ==> s[char_at_or_end(s, i, c)] == c,
    decreases s.len() - i,
{
    if i < s.len() && s[i] != c {
        lemma_char_at_bounds(s, i + 1, c);
    }
}

fn find_char(s: &str, from: usize, c: char) -> (r: usize)
    requires
        from <= s@.len(),
    ensures
        r == char_at_or_end(s@, from as int, c),
        from <= r <= s@.len(),
{
    let n = s.unicode_len();
    let mut i = from;
    while i < n && s.get_char(i) != c
        invariant
            from <= i <= n == s@.len(),
            char_at_or_end(s@, from as int, c) == char_at_or_end(s@, i as int, c),
        decreases n - i,
    {
        i = i + 1;
    }
    i
}

/// The lines of `s` from `i` on, as `str::lines` cuts them.
pub open spec fn text_lines(s: Seq<char>, i: int) -> Seq<Seq<char>>
    decreases s.len() - i,
{
    if i < 0 || i >= s.len() {
        Seq::empty()
    } else {
        let e = char_at_or_end(s, i, '\n');
        if e >= s.len() || e < i {
            seq![s.subrange(i, s.len() as int)]
        } else {
            let raw = s.subrange(i, e);
            let line = if raw.len() > 0 && raw.last() == '\r' {
                raw.drop_last()
            } else {
                raw
            };
            seq![line] + text_lines(s, e + 1)
        }
    }
}

/// What a setting line is refused for: a malformed line, or an unknown key.
pub enum ConfigFault {
    Line(Seq<char>),
    Key(Seq<char>),
}

pub open spec fn key_node_name() -> Seq<char> {
    "node.node_name"@
}

pub open spec fn key_node_id_fp() -> Seq<char> {
    "node.node_id_fp"@
}

pub open spec fn key_operating_role() -> Seq<char> {
    "node.operating_role"@
}

pub open spec fn key_jurisdiction() -> Seq<char> {
    "node.jurisdiction"@
}

/// One line read against the settings and the current section: nothing,
/// a new section, a setting, or the fault that stops the parse.
pub open spec fn config_line(cfg: ConfigModel, section: Seq<char>, raw: Seq<char>) -> Result<
    (ConfigModel, Seq<char>),
    ConfigFault,
> {
    let line = trim_chars(raw.take(comment_at(raw, 0, false)));
    if line.len() == 0 {
        Ok((cfg, section))
    } else if line[0] == '[' && line.last() == ']' {
        Ok((cfg, trim_chars(line.subrange(1, line.len() - 1))))
    } else {
        let e = char_at_or_end(line, 0, '=');
        if e >= line.len() {
            Err(ConfigFault::Line(line))
        } else {
            let v = trim_chars(line.subrange(e + 1, line.len() as int));
            if !(v.len() >= 2 && v[0] == '"' && v.last() == '"') {
                Err(ConfigFault::Line(v))
            } else {
                let value = v.subrange(1, v.len() - 1);
                let full = section + seq!['.'] + trim_chars(line.take(e));
                if full == key_node_name() {
                    Ok(((value, cfg.1, cfg.2, cfg.3), section))
                } else if full == key_node_id_fp() {
                    Ok(((cfg.0, value, cfg.2, cfg.3), section))
                } else if full == key_operating_role() {
                    Ok(((cfg.0, cfg.1, value, cfg.3), section))
                } else if full == key_jurisdiction() {
                    Ok(((cfg.0, cfg.1, cfg.2, value), section))
                } else {
                    Err(ConfigFault::Key(full))
                }
            }
        }
    }
}

/// The settings and section after reading `lines` in order, or the first fault.
pub open spec fn config_lines(lines: Seq<Seq<char>>) -> Result<(ConfigModel, Seq<char>), ConfigFault>
    decreases lines.len(),
{
    if lines.len() == 0 {
        Ok((default_model(), Seq::empty()))
    } else {
        match config_lines(lines.drop_last()) {
            Err(f) => Err(f),
            Ok((cfg, section)) => config_line(cfg, section, lines.last()),
        }
    }
}


/// The text of a setting line `key = "value"`.
pub open spec fn setting_line(key: Seq<char>, value: Seq<char>) -> Seq<char> {
    key + seq![' ', '=', ' ', '"'] + value + seq!['"']
}

/// A value that can stand between the quotes of a setting line: no quote
/// and no `#`.
pub open spec fn plain_value(v: Seq<char>) -> bool {
    forall|i: int| 0 <= i < v.len() ==> #[trigger] v[i] != '"' && v[i] != '#'
}

/// A key as it may stand before `=`: not empty, not starting with `[` or
/// whitespace, not ending with whitespace, and without `=`, quotes or `#`.
pub open spec fn plain_key(k: Seq<char>) -> bool {
    &&& k.len() > 0
    &&& k[0] != '['
    &&& !is_ws_char(k[0])
    &&& !is_ws_char(k.last())
    &&& forall|i: int| 0 <= i < k.len() ==> #[trigger] k[i] != '=' && k[i] != '"' && k[i] != '#'
}

/// Without a `#` from `i` on, there is no comment.
proof fn lemma_no_comment(s: Seq<char>, i: int, in_str: bool)
    requires
        0 <= i <= s.len(),
        forall|j: int| i <= j < s.len() ==> #[trigger] s[j] != '#',
    ensures
        comment_at(s, i, in_str) == s.len(),
    decreases s.len() - i,
{
    if i < s.len() {
        if s[i] == '"' {
            lemma_no_comment(s, i + 1, !in_str);
        } else {
            lemma_no_comment(s, i + 1, in_str);
        }
    }
}

/// The first `c` from `i` on is at `j`.
proof fn lemma_first_char_at(s: Seq<char>, i: int, j: int, c: char)
    requires
        0 <= i <= j < s.len(),
        s[j] == c,
        forall|m: int| i <= m < j ==> #[trigger] s[m] != c,
    ensures
        char_at_or_end(s, i, c) == j,
    decreases j - i,
{
    if i < j {
        lemma_first_char_at(s, i + 1, j, c);
    }
}

/// A sequence that neither starts nor ends with whitespace is its own trim.
proof fn lemma_trim_unchanged(s: Seq<char>)
    requires
        s.len() > 0,
        !is_ws_char(s[0]),
        !is_ws_char(s.last()),
    ensures
        trim_chars(s) == s,
{
    assert(ws_from(s, 0) == 0);
    assert(ws_before(s, 0, s.len() as int) == s.len());
    assert(s.subrange(0, s.len() as int) =~= s);
}

/// How a setting line reads: its key under the section, and its value.
proof fn lemma_setting_line(cfg: ConfigModel, section: Seq<char>, k: Seq<char>, v: Seq<char>)
    requires
        plain_key(k),
        plain_value(v),
    ensures
        ({
            let full = section + seq!['.'] + k;
            config_line(cfg, section, setting_line(k, v)) == if full == key_node_name() {
                Ok::<(ConfigModel, Seq<char>), ConfigFault>(((v, cfg.1, cfg.2, cfg.3), section))
            } else if full == key_node_id_fp() {
                Ok(((cfg.0, v, cfg.2, cfg.3), section))
            } else if full == key_operating_role() {
                Ok(((cfg.0, cfg.1, v, cfg.3), section))
            } else if full == key_jurisdiction() {
                Ok(((cfg.0, cfg.1, cfg.2, v), section))
            } else {
                Err(ConfigFault::Key(full))
            }
        }),
{
    let raw = setting_line(k, v);
    let n: int = k.len() as int;
    assert forall|j: int| 0 <= j < raw.len() implies #[trigger] raw[j] != '#' by {
        if j < n {
            assert(raw[j] == k[j]);
        } else if n + 4 <= j < n + 4 + v.len() {
            assert(raw[j] == v[j - n - 4]);
        }
    }
    lemma_no_comment(raw, 0, false);
    assert(raw.take(raw.len() as int) =~= raw);
    assert(raw[0] == k[0]);
    assert(!is_ws_char('"')) by {
        assert(('"' as u32) == 0x22);
    }
    lemma_trim_unchanged(raw);
    let line = raw;
    assert(line[n + 1] == '=');
    assert forall|m: int| 0 <= m < n + 1 implies #[trigger] line[m] != '=' by {
        if m < n {
            assert(line[m] == k[m]);
        }
    }
    lemma_first_char_at(line, 0, n + 1, '=');
    let tail = line.subrange(n + 2, line.len() as int);
    let quoted = seq!['"'] + v + seq!['"'];
    assert(tail =~= seq![' '] + quoted);
    assert(is_ws_char(' ')) by {
        assert((' ' as u32) == 0x20);
    }
    assert(ws_from(tail, 1) == 1);
    assert(ws_from(tail, 0) == 1);
    assert(ws_before(tail, 1, tail.len() as int) == tail.len());
    assert(trim_chars(tail) =~= quoted);
    assert(quoted.subrange(1, quoted.len() - 1) =~= v);
    let head = line.take(n + 1);
    assert(head =~= k + seq![' ']);
    assert(ws_from(head, 0) == 0);
    assert(head[n - 1] == k.last());
    assert(ws_before(head, 0, n) == n);
    assert(ws_before(head, 0, n + 1) == n);
    assert(trim_chars(head) =~= k);
}

/// The characters of `node_id_fp`.
pub open spec fn chars_node_id_fp() -> Seq<char> {
    seq!['n', 'o', 'd', 'e', '_', 'i', 'd', '_', 'f', 'p']
}

/// The characters of `node_name`.
pub open spec fn chars_node_name() -> Seq<char> {
    seq!['n', 'o', 'd', 'e', '_', 'n', 'a', 'm', 'e']
}

/// The characters of `operating_role`.
pub open spec fn chars_operating_role() -> Seq<char> {
    seq!['o', 'p', 'e', 'r', 'a', 't', 'i', 'n', 'g', '_', 'r', 'o', 'l', 'e']
}

/// The characters of `jurisdiction`.
pub open spec fn chars_jurisdiction() -> Seq<char> {
    seq!['j', 'u', 'r', 'i', 's', 'd', 'i', 'c', 't', 'i', 'o', 'n']
}

/// The characters of `node`.
pub open spec fn chars_node() -> Seq<char> {
    seq!['n', 'o', 'd', 'e']
}

/// A setting line `key = "value"` in section `[node]` sets exactly the
/// setting its key names to `value`, keeping the other three and the
/// section: `node_name`, `node_id_fp`, `operating_role` and `jurisdiction`
/// each set their own setting.
pub proof fn lemma_setting_line_sets_its_setting(cfg: ConfigModel, v: Seq<char>)
    requires
        plain_value(v),
    ensures
        config_line(cfg, chars_node(), setting_line(chars_node_name(), v)) == Ok::<
            (ConfigModel, Seq<char>),
            ConfigFault,
        >(((v, cfg.1, cfg.2, cfg.3), chars_node())),
        config_line(cfg, chars_node(), setting_line(chars_node_id_fp(), v)) == Ok::<
            (ConfigModel, Seq<char>),
            ConfigFault,
        >(((cfg.0, v, cfg.2, cfg.3), chars_node())),
        config_line(cfg, chars_node(), setting_line(chars_operating_role(), v)) == Ok::<
            (ConfigModel, Seq<char>),
            ConfigFault,
        >(((cfg.0, cfg.1, v, cfg.3), chars_node())),
        config_line(cfg, chars_node(), setting_line(chars_jurisdiction(), v)) == Ok::<
            (ConfigModel, Seq<char>),
            ConfigFault,
        >(((cfg.0, cfg.1, cfg.2, v), chars_node())),
{
    reveal_strlit("node.node_name");
    reveal_strlit("node.node_id_fp");
    reveal_strlit("node.operating_role");
    reveal_strlit("node.jurisdiction");
    let keys = seq![chars_node_name(), chars_node_id_fp(), chars_operating_role(), chars_jurisdiction()];
    assert forall|i: int| 0 <= i < 4 implies #[trigger] plain_key(keys[i]) by {
        let k = keys[i];
        assert(!is_ws_char(k[0])) by {
            assert((k[0] as u32) > 0x60);
        }
        assert(!is_ws_char(k.last())) by {
            assert((k.last() as u32) > 0x60);
        }
        assert forall|j: int| 0 <= j < k.len() implies #[trigger] k[j] != '=' && k[j] != '"' && k[j] != '#' by {
            assert((k[j] as u32) >= 0x5f);
        }
    }
    let sec = chars_node();
    lemma_setting_line(cfg, sec, keys[0], v);
    lemma_setting_line(cfg, sec, keys[1], v);
    lemma_setting_line(cfg, sec, keys[2], v);
    lemma_setting_line(cfg, sec, keys[3], v);
    assert(sec + seq!['.'] + chars_node_name() =~= key_node_name());
    assert(sec + seq!['.'] + chars_node_id_fp() =~= key_node_id_fp());
    assert(sec + seq!['.'] + chars_operating_role() =~= key_operating_role());
    assert(sec + seq!['.'] + chars_jurisdiction() =~= key_jurisdiction());
}

/// Without quotes or `#` between `i` and `j`, the comment search passes
/// over them unchanged.
proof fn lemma_comment_skip(s: Seq<char>, i: int, j: int, in_str: bool)
    requires
        0 <= i <= j <= s.len(),
        forall|m: int| i <= m < j ==> #[trigger] s[m] != '#' && s[m] != '"',
    ensures
        comment_at(s, i, in_str) == comment_at(s, j, in_str),
    decreases j - i,
{
    if i < j {
        lemma_comment_skip(s, i + 1, j, in_str);
    }
}

/// A comment after a setting line does not change what the line does:
/// `key = "value" # anything` reads as `key = "value"`.
pub proof fn lemma_trailing_comment_ignored(
    cfg: ConfigModel,
    section: Seq<char>,
    k: Seq<char>,
    v: Seq<char>,
    comment: Seq<char>,
)
    requires
        plain_key(k),
        plain_value(v),
    ensures
        config_line(cfg, section, setting_line(k, v) + seq![' ', '#'] + comment) == config_line(
            cfg,
            section,
            setting_line(k, v),
        ),
{
    let base = setting_line(k, v);
    let raw = base + seq![' ', '#'] + comment;
    let n = k.len() as int;
    let q1 = n + 3;
    let q2 = n + 4 + v.len();
    assert(raw[q1] == '"');
    assert(raw[q2] == '"');
    assert(raw[q2 + 1] == ' ');
    assert(raw[q2 + 2] == '#');
    assert forall|m: int| 0 <= m < q1 implies #[trigger] raw[m] != '#' && raw[m] != '"' by {
        if m < n {
            assert(raw[m] == k[m]);
        }
    }
    assert forall|m: int| q1 + 1 <= m < q2 implies #[trigger] raw[m] != '#' && raw[m] != '"' by {
        assert(raw[m] == v[m - n - 4]);
    }
    lemma_comment_skip(raw, 0, q1, false);
    lemma_comment_skip(raw, q1 + 1, q2, true);
    assert(comment_at(raw, q2 + 1, false) == comment_at(raw, q2 + 2, false));
    assert(comment_at(raw, 0, false) == q2 + 2);
    let cut = raw.take(q2 + 2);
    assert(cut =~= base + seq![' ']);
    assert(is_ws_char(' ')) by {
        assert((' ' as u32) == 0x20);
    }
    assert(!is_ws_char('"')) by {
        assert(('"' as u32) == 0x22);
    }
    assert(cut[0] == k[0]);
    assert(ws_from(cut, 0) == 0);
    assert(cut[q2] == '"');
    assert(ws_before(cut, 0, q2 + 1) == q2 + 1);
    assert(ws_before(cut, 0, cut.len() as int) == q2 + 1);
    assert(trim_chars(cut) =~= base);
    assert(base[0] == k[0]);
    lemma_no_comment_base(base, k, v);
    assert(base.take(base.len() as int) =~= base);
    lemma_trim_unchanged(base);
}

/// A setting line has no comment.
proof fn lemma_no_comment_base(base: Seq<char>, k: Seq<char>, v: Seq<char>)
    requires
        plain_key(k),
        plain_value(v),
        base == setting_line(k, v),
    ensures
        comment_at(base, 0, false) == base.len(),
        !is_ws_char(base.last()),
{
    let n = k.len() as int;
    assert forall|j: int| 0 <= j < base.len() implies #[trigger] base[j] != '#' by {
        if j < n {
            assert(base[j] == k[j]);
        } else if n + 4 <= j < n + 4 + v.len() {
            assert(base[j] == v[j - n - 4]);
        }
    }
    lemma_no_comment(base, 0, false);
    assert(!is_ws_char('"')) by {
        assert(('"' as u32) == 0x22);
    }
}

/// The text of the section header `[node]`.
pub open spec fn node_header() -> Seq<char> {
    seq!['['] + chars_node() + seq![']']
}

/// A `[node]` header line switches to section `node` and keeps the settings.
pub proof fn lemma_node_header(cfg: ConfigModel, section: Seq<char>)
    ensures
        config_line(cfg, section, node_header()) == Ok::<(ConfigModel, Seq<char>), ConfigFault>(
            (cfg, chars_node()),
        ),
{
    let raw = node_header();
    assert forall|j: int| 0 <= j < raw.len() implies #[trigger] raw[j] != '#' by {}
    lemma_no_comment(raw, 0, false);
    assert(raw.take(raw.len() as int) =~= raw);
    assert(!is_ws_char('[')) by {
        assert(('[' as u32) == 0x5b);
    }
    assert(!is_ws_char(']')) by {
        assert((']' as u32) == 0x5d);
    }
    lemma_trim_unchanged(raw);
    let inner = raw.subrange(1, raw.len() - 1);
    assert(inner =~= chars_node());
    assert(!is_ws_char('n')) by {
        assert(('n' as u32) == 0x6e);
    }
    assert(!is_ws_char('e')) by {
        assert(('e' as u32) == 0x65);
    }
    lemma_trim_unchanged(inner);
}

/// The text `[node]`, a newline and a setting line whose value has no
/// newline is read as those two lines.
pub proof fn lemma_two_line_text(k: Seq<char>, v: Seq<char>)
    requires
        plain_key(k),
        forall|i: int| 0 <= i < k.len() ==> #[trigger] k[i] != '\n',
        forall|i: int| 0 <= i < v.len() ==> #[trigger] v[i] != '\n',
    ensures
        text_lines(node_header() + seq!['\n'] + setting_line(k, v), 0) == seq![node_header(), setting_line(k, v)],
{
    let line = setting_line(k, v);
    let s = node_header() + seq!['\n'] + line;
    let n = k.len() as int;
    lemma_first_char_at(s, 0, 6, '\n');
    assert(s.subrange(0, 6) =~= node_header());
    assert(s.subrange(7, s.len() as int) =~= line);
    assert forall|m: int| 7 <= m < s.len() implies #[trigger] s[m] != '\n' by {
        let j = m - 7;
        assert(s[m] == line[j]);
        if j < n {
            assert(line[j] == k[j]);
        } else if n + 4 <= j < n + 4 + v.len() {
            assert(line[j] == v[j - n - 4]);
        }
    }
    lemma_no_char_from(s, 7, '\n');
    assert(text_lines(s, 7) == seq![line]);
    assert(text_lines(s, 0) == seq![node_header()] + text_lines(s, 7));
    assert(seq![node_header()] + seq![line] =~= seq![node_header(), line]);
}

/// Without a `c` from `i` on, the search runs to the end.
proof fn lemma_no_char_from(s: Seq<char>, i: int, c: char)
    requires
        0 <= i <= s.len(),
        forall|m: int| i <= m < s.len() ==> #[trigger] s[m] != c,
    ensures
        char_at_or_end(s, i, c) == s.len(),
    decreases s.len() - i,
{
    if i < s.len() {
        lemma_no_char_from(s, i + 1, c);
    }
}

/// Settings are read in order and a later setting line wins: after any
/// lines that leave the reader in section `node`, a line
/// `node_id_fp = "value"` makes `node_id_fp` that value and keeps the rest.
/// So a file of `[node]` and `node_id_fp = "value"` reads as the defaults
/// with `node_id_fp` set to `value`.
pub proof fn lemma_last_node_id_fp_wins(lines: Seq<Seq<char>>, cfg: ConfigModel, v: Seq<char>)
    requires
        plain_value(v),
    ensures
        config_lines(lines) == Ok::<(ConfigModel, Seq<char>), ConfigFault>((cfg, chars_node())) ==> config_lines(
            lines.push(setting_line(chars_node_id_fp(), v)),
        ) == Ok::<(ConfigModel, Seq<char>), ConfigFault>(((cfg.0, v, cfg.2, cfg.3), chars_node())),
        config_lines(seq![node_header(), setting_line(chars_node_id_fp(), v)]) == Ok::<
            (ConfigModel, Seq<char>),
            ConfigFault,
        >(((default_model().0, v, default_model().2, default_model().3), chars_node())),
{
    lemma_setting_line_sets_its_setting(cfg, v);
    assert(lines.push(setting_line(chars_node_id_fp(), v)).drop_last() =~= lines);
    let two = seq![node_header(), setting_line(chars_node_id_fp(), v)];
    let one = seq![node_header()];
    assert(two.drop_last() =~= one);
    assert(one.drop_last() =~= Seq::<Seq<char>>::empty());
    lemma_node_header(default_model(), Seq::empty());
    lemma_setting_line_sets_its_setting(default_model(), v);
    assert(config_lines(Seq::<Seq<char>>::empty()) == Ok::<(ConfigModel, Seq<char>), ConfigFault>(
        (default_model(), Seq::empty()),
    ));
    assert(one.last() == node_header());
    assert(config_lines(one) == Ok::<(ConfigModel, Seq<char>), ConfigFault>((default_model(), chars_node())));
    assert(two.last() == setting_line(chars_node_id_fp(), v));
}

/// Where the comment of `s` starts (or its length).
fn comment_cut(s: &str) -> (r: usize)
    ensures
        r == comment_at(s@, 0, false),
        r <= s@.len(),
{
    let n = s.unicode_len();
    let mut i: usize = 0;
    let mut in_string = false;
    while i < n
        invariant
            i <= n == s@.len(),
            comment_at(s@, 0, false) == comment_at(s@, i as int, in_string),
        decreases n - i,
    {
        let c = s.get_char(i);
        if c == '"' {
            in_string = !in_string;
        } else if c == '#' && !in_string {
            return i;
        }
        i = i + 1;
    }
    i
}

/// Reads one line into the settings and the current section.
fn apply_line(raw: &str, config: &mut ChronosLiteConfig, section: &mut String) -> (r: Result<(), ConfigError>)
    ensures
        match config_line(config_model(*old(config)), old(section)@, raw@) {
            Ok((m, sec)) => r is Ok && config_model(*final(config)) == m && final(section)@ == sec,
            Err(ConfigFault::Line(l)) => r matches Err(ConfigError::InvalidLine(e)) && e@ == l,
            Err(ConfigFault::Key(k)) => r matches Err(ConfigError::InvalidKey(e)) && e@ == k,
        },
{
    let c = comment_cut(raw);
    proof {
        lemma_comment_at_bounds(raw@, 0, false);
    }
    let cut = raw.substring_char(0, c);
    assert(cut@ =~= raw@.take(c as int));
    let (a, b) = trim_range(cut);
    let line = cut.substring_char(a, b);
    let n = line.unicode_len();
    if n == 0 {
        return Ok(());
    }
    if line.get_char(0) == '[' && line.get_char(n - 1) == ']' {
        let inner = line.substring_char(1, n - 1);
        let (x, y) = trim_range(inner);
        *section = String::from_str(inner.substring_char(x, y));
        return Ok(());
    }
    let e = find_char(line, 0, '=');
    if e >= n {
        return Err(ConfigError::InvalidLine(String::from_str(line)));
    }
    let vraw = line.substring_char(e + 1, n);
    let (x, y) = trim_range(vraw);
    let v = vraw.substring_char(x, y);
    let vn = v.unicode_len();
    if !(vn >= 2 && v.get_char(0) == '"' && v.get_char(vn - 1) == '"') {
        return Err(ConfigError::InvalidLine(String::from_str(v)));
    }
    let value = String::from_str(v.substring_char(1, vn - 1));
    let kraw = line.substring_char(0, e);
    assert(kraw@ =~= line@.take(e as int));
    let (p, q) = trim_range(kraw);
    let key = kraw.substring_char(p, q);
    let full = String::from_str(section.as_str()).concat(".").concat(key);
    proof {
        reveal_strlit(".");
        assert("."@ =~= seq!['.']);
    }
    if full == String::from_str("node.node_name") {
        config.node_name = value;
    } else if full == String::from_str("node.node_id_fp") {
        config.node_id_fp = value;
    } else if full == String::from_str("node.operating_role") {
        config.operating_role = value;
    } else if full == String::from_str("node.jurisdiction") {
        config.jurisdiction = value;
    } else {
        return Err(ConfigError::InvalidKey(full));
    }
    Ok(())
}

proof fn lemma_config_lines_err_prefix(pre: Seq<Seq<char>>, rest: Seq<Seq<char>>)
    requires
        config_lines(pre) is Err,
    ensures
        config_lines(pre + rest) == config_lines(pre),
    decreases rest.len(),
{
    if rest.len() > 0 {
        lemma_config_lines_err_prefix(pre, rest.drop_last());
        assert((pre + rest).drop_last() =~= pre + rest.drop_last());
    } else {
        assert(pre + rest =~= pre);
    }
}

/// Reads the configuration text: the defaults, overridden by the settings
/// it gives; the first bad line or unknown key is the error.
pub fn parse_chronos_lite_config(text: &str) -> (r: Result<ChronosLiteConfig, ConfigError>)
    ensures
        match config_lines(text_lines(text@, 0)) {
            Ok((m, _)) => r matches Ok(c) && config_model(c) == m,
            Err(ConfigFault::Line(l)) => r matches Err(ConfigError::InvalidLine(e)) && e@ == l,
            Err(ConfigFault::Key(k)) => r matches Err(ConfigError::InvalidKey(e)) && e@ == k,
        },
{
    let mut config = ChronosLiteConfig::default();
    let mut section = String::new();
    let n = text.unicode_len();
    let ghost all = text@;
    let mut pos: usize = 0;
    let ghost mut done: Seq<Seq<char>> = Seq::empty();
    while pos < n
        invariant
            all == text@,
            n == all.len(),
            pos <= n,
            text_lines(all, 0) == done + text_lines(all, pos as int),
            config_lines(done) == Ok::<(ConfigModel, Seq<char>), ConfigFault>((config_model(config), section@)),
        decreases n - pos,
    {
        let e = find_char(text, pos, '\n');
        let mut le = e;
        if e < n && le > pos && text.get_char(le - 1) == '\r' {
            le = le - 1;
        }
        let raw = text.substring_char(pos, le);
        let ghost line_view = raw@;
        let ghost next_pos: int = if e < n { e + 1 } else { n as int };
        proof {
            lemma_char_at_bounds(all, pos as int, '\n');
            let rw = all.subrange(pos as int, e as int);
            if e < n {
                if rw.len() > 0 && rw.last() == '\r' {
                    assert(rw.drop_last() =~= line_view);
                } else {
                    assert(rw =~= line_view);
                }
                assert(text_lines(all, pos as int) == seq![line_view] + text_lines(all, e + 1));
            } else {
                assert(text_lines(all, pos as int) == seq![line_view]);
                assert(text_lines(all, n as int) == Seq::<Seq<char>>::empty());
            }
        }
        let ghost next_done = done.push(line_view);
        assert(next_done.drop_last() =~= done);
        assert(text_lines(all, 0) == next_done + text_lines(all, next_pos));
        match apply_line(raw, &mut config, &mut section) {
            Ok(()) => {},
            Err(err) => {
                proof {
                    lemma_config_lines_err_prefix(next_done, text_lines(all, next_pos));
                }
                return Err(err);
            },
        }
        proof {
            done = next_done;
        }
        if e < n {
            pos = e + 1;
        } else {
            pos = n;
        }
    }
    assert(text_lines(all, pos as int) == Seq::<Seq<char>>::empty());
    assert(done + Seq::<Seq<char>>::empty() =~= done);
    Ok(config)
}
} // verus!
