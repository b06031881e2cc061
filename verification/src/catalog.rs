use vstd::prelude::*;
use vstd::string::StrSliceExecFns;

verus! {

/// The static list of symbol names loaded once at startup: the names to read
/// each cycle and the names to write each cycle, both in declaration order.
/// Uniqueness within a list is not enforced; the catalog never changes after
/// it is built.
pub struct SymbolCatalog {
    pub read_symbols: Vec<String>,
    pub write_symbols: Vec<String>,
}

impl SymbolCatalog {
    /// The read-symbol names, as sequences of characters, in catalog order.
    pub open spec fn read_view(&self) -> Seq<Seq<char>> {
        self.read_symbols.deep_view()
    }

    /// The write-symbol names, as sequences of characters, in catalog order.
    pub open spec fn write_view(&self) -> Seq<Seq<char>> {
        self.write_symbols.deep_view()
    }
}

/// Whitespace accepted between the tokens of the catalog text.
pub open spec fn is_ws_char(c: char) -> bool {
    c == ' ' || c == '\t' || c == '\n' || c == '\r'
}

/// A character accepted inside a quoted name: printable ASCII other than the
/// quote and the backslash.
pub open spec fn is_name_char(c: char) -> bool {
    0x20 <= (c as u32) && (c as u32) <= 0x7e && c != '"' && c != '\\'
}

/// The first index at or after `i` holding no whitespace (or the end).
pub open spec fn skip_ws(s: Seq<char>, i: int) -> int
    decreases s.len() - i,
{
    if 0 <= i < s.len() && is_ws_char(s[i]) {
        skip_ws(s, i + 1)
    } else {
        i
    }
}

/// The first index at or after `i` holding no name character (or the end).
pub open spec fn scan_name(s: Seq<char>, i: int) -> int
    decreases s.len() - i,
{
    if 0 <= i < s.len() && is_name_char(s[i]) {
        scan_name(s, i + 1)
    } else {
        i
    }
}

pub proof fn lemma_skip_ws_bounds(s: Seq<char>, i: int)
    requires
        0 <= i <= s.len(),
    ensures
        i <= skip_ws(s, i) <= s.len(),
    decreases s.len() - i,
{
    if i < s.len() && is_ws_char(s[i]) {
        lemma_skip_ws_bounds(s, i + 1);
    }
}

pub proof fn lemma_scan_name_bounds(s: Seq<char>, i: int)
    requires
        0 <= i <= s.len(),
    ensures
        i <= scan_name(s, i) <= s.len(),
    decreases s.len() - i,
{
    if i < s.len() && is_name_char(s[i]) {
        lemma_scan_name_bounds(s, i + 1);
    }
}

/// A quoted name at `i`: a `"`, a run of name characters, a `"`. On success,
/// the name and the index just after the closing quote.
pub open spec fn parse_qstring(s: Seq<char>, i: int) -> Option<(Seq<char>, int)> {
    if 0 <= i < s.len() && s[i] == '"' {
        let j = scan_name(s, i + 1);
        if j < s.len() && s[j] == '"' {
            Some((s.subrange(i + 1, j), j + 1))
        } else {
            None
        }
    } else {
        None
    }
}

pub proof fn lemma_parse_qstring_bounds(s: Seq<char>, i: int)
    ensures
        parse_qstring(s, i) matches Some(p) ==> i + 2 <= p.1 <= s.len(),
{
    if 0 <= i < s.len() && s[i] == '"' {
        lemma_scan_name_bounds(s, i + 1);
    }
}

/// The items of a non-empty name list, starting at the first quoted name and
/// ending just after the closing `]`.
pub open spec fn parse_items(s: Seq<char>, i: int) -> Option<(Seq<Seq<char>>, int)>
    decreases s.len() - i,
    via parse_items_decreases
{
    match parse_qstring(s, i) {
        None => None,
        Some(p) => {
            let k = skip_ws(s, p.1);
            if k < s.len() && s[k] == ',' {
                let m2 = skip_ws(s, k + 1);
                match parse_items(s, m2) {
                    None => None,
                    Some(rest) => Some((seq![p.0] + rest.0, rest.1)),
                }
            } else if k < s.len() && s[k] == ']' {
                Some((seq![p.0], k + 1))
            } else {
                None
            }
        },
    }
}

#[via_fn]
proof fn parse_items_decreases(s: Seq<char>, i: int) {
    lemma_parse_qstring_bounds(s, i);
    match parse_qstring(s, i) {
        None => {},
        Some(p) => {
            lemma_skip_ws_bounds(s, p.1);
            let k = skip_ws(s, p.1);
            if k < s.len() && s[k] == ',' {
                lemma_skip_ws_bounds(s, k + 1);
            }
        },
    }
}

/// A name list at `i`: `[` then either a closing `]` or the comma-separated
/// quoted names, with whitespace between tokens.
pub open spec fn parse_array(s: Seq<char>, i: int) -> Option<(Seq<Seq<char>>, int)> {
    if 0 <= i < s.len() && s[i] == '[' {
        let j = skip_ws(s, i + 1);
        if j < s.len() && s[j] == ']' {
            Some((Seq::empty(), j + 1))
        } else {
            parse_items(s, j)
        }
    } else {
        None
    }
}

/// One member at `i`: a quoted key, `:`, a name list.
pub open spec fn parse_member(s: Seq<char>, i: int) -> Option<((Seq<char>, Seq<Seq<char>>), int)> {
    match parse_qstring(s, i) {
        None => None,
        Some(kp) => {
            let k = skip_ws(s, kp.1);
            if k < s.len() && s[k] == ':' {
                match parse_array(s, skip_ws(s, k + 1)) {
                    None => None,
                    Some(ap) => Some(((kp.0, ap.0), ap.1)),
                }
            } else {
                None
            }
        },
    }
}

/// The key naming the list of symbols read each cycle.
pub open spec fn read_key() -> Seq<char> {
    "read_symbols"@
}

/// The key naming the list of symbols written each cycle.
pub open spec fn write_key() -> Seq<char> {
    "write_symbols"@
}

/// The shape a catalog text must have: one object holding exactly the two
/// members `read_symbols` and `write_symbols`, in either order, each a list
/// of quoted names, with whitespace allowed between tokens and nothing but
/// whitespace after the closing brace. On success, the read list and the
/// write list.
pub open spec fn catalog_text(s: Seq<char>) -> Option<(Seq<Seq<char>>, Seq<Seq<char>>)> {
    let i = skip_ws(s, 0);
    if i < s.len() && s[i] == '{' {
        match parse_member(s, skip_ws(s, i + 1)) {
            None => None,
            Some(m1) => {
                let k = skip_ws(s, m1.1);
                if k < s.len() && s[k] == ',' {
                    match parse_member(s, skip_ws(s, k + 1)) {
                        None => None,
                        Some(m2) => {
                            let e = skip_ws(s, m2.1);
                            if e < s.len() && s[e] == '}' && skip_ws(s, e + 1) == s.len() {
                                if m1.0.0 == read_key() && m2.0.0 == write_key() {
                                    Some((m1.0.1, m2.0.1))
                                } else if m1.0.0 == write_key() && m2.0.0 == read_key() {
                                    Some((m2.0.1, m1.0.1))
                                } else {
                                    None
                                }
                            } else {
                                None
                            }
                        },
                    }
                } else {
                    None
                }
            },
        }
    } else {
        None
    }
}

/// A name the grammar can carry between quotes.
pub open spec fn valid_name(name: Seq<char>) -> bool {
    forall|t: int| 0 <= t < name.len() ==> is_name_char(name[t])
}

/// Every name of the list can be carried.
pub open spec fn valid_names(names: Seq<Seq<char>>) -> bool {
    forall|k: int| 0 <= k < names.len() ==> valid_name(names[k])
}

/// `name` between quotes.
pub open spec fn quoted(name: Seq<char>) -> Seq<char> {
    seq!['"'] + name + seq!['"']
}

/// The canonical text of the items of a non-empty list, through the
/// closing `]`.
pub open spec fn rendered_items(names: Seq<Seq<char>>) -> Seq<char>
    decreases names.len(),
{
    if names.len() <= 1 {
        quoted(names[0]) + seq![']']
    } else {
        quoted(names[0]) + seq![','] + rendered_items(names.drop_first())
    }
}

/// The canonical text of a name list.
pub open spec fn rendered_list(names: Seq<Seq<char>>) -> Seq<char> {
    if names.len() == 0 {
        seq!['[', ']']
    } else {
        seq!['['] + rendered_items(names)
    }
}

/// The canonical text of one member.
pub open spec fn rendered_member(key: Seq<char>, names: Seq<Seq<char>>) -> Seq<char> {
    quoted(key) + seq![':'] + rendered_list(names)
}

/// The canonical text of a whole catalog: no whitespace, read list first.
pub open spec fn rendered_catalog(reads: Seq<Seq<char>>, writes: Seq<Seq<char>>) -> Seq<char> {
    seq!['{'] + rendered_member(read_key(), reads) + seq![','] + rendered_member(
        write_key(),
        writes,
    ) + seq!['}']
}

/// The characters of `x` stand in `s` beginning at `i`.
pub open spec fn text_at(s: Seq<char>, i: int, x: Seq<char>) -> bool {
    &&& 0 <= i
    &&& i + x.len() <= s.len()
    &&& forall|t: int| 0 <= t < x.len() ==> s[i + t] == x[t]
}

proof fn lemma_text_at_split(s: Seq<char>, i: int, x: Seq<char>, y: Seq<char>)
    requires
        text_at(s, i, x + y),
    ensures
        text_at(s, i, x),
        text_at(s, i + x.len(), y),
{
    assert forall|t: int| 0 <= t < x.len() implies s[i + t] == x[t] by {
        assert(s[i + t] == (x + y)[t]);
    }
    assert forall|t: int| 0 <= t < y.len() implies s[i + x.len() + t] == y[t] by {
        assert(s[i + (x.len() + t)] == (x + y)[x.len() + t]);
    }
}

proof fn lemma_text_at_char(s: Seq<char>, i: int, c: char)
    requires
        text_at(s, i, seq![c]),
    ensures
        0 <= i < s.len() && s[i] == c,
{
    assert(s[i + 0] == seq![c][0]);
}

proof fn lemma_text_at_first(s: Seq<char>, i: int, x: Seq<char>)
    requires
        text_at(s, i, x),
        x.len() > 0,
    ensures
        0 <= i < s.len() && s[i] == x[0],
{
    assert(s[i + 0] == x[0]);
}

proof fn lemma_skip_ws_noop(s: Seq<char>, i: int)
    requires
        0 <= i <= s.len(),
        i == s.len() || !is_ws_char(s[i]),
    ensures
        skip_ws(s, i) == i,
{
}

proof fn lemma_scan_name_run(s: Seq<char>, i: int, k: int)
    requires
        0 <= i <= k <= s.len(),
        forall|t: int| i <= t < k ==> is_name_char(s[t]),
        k == s.len() || !is_name_char(s[k]),
    ensures
        scan_name(s, i) == k,
    decreases k - i,
{
    if i < k {
        lemma_scan_name_run(s, i + 1, k);
    }
}

proof fn lemma_parse_qstring_at(s: Seq<char>, i: int, name: Seq<char>)
    requires
        valid_name(name),
        text_at(s, i, quoted(name)),
    ensures
        parse_qstring(s, i) == Some((name, i + name.len() + 2)),
{
    lemma_text_at_split(s, i, seq!['"'] + name, seq!['"']);
    lemma_text_at_split(s, i, seq!['"'], name);
    lemma_text_at_char(s, i, '"');
    lemma_text_at_char(s, i + 1 + name.len(), '"');
    assert forall|t: int| i + 1 <= t < i + 1 + name.len() implies is_name_char(s[t]) by {
        assert(s[i + 1 + (t - i - 1)] == name[t - i - 1]);
    }
    lemma_scan_name_run(s, i + 1, i + 1 + name.len());
    assert(s.subrange(i + 1, i + 1 + name.len()) =~= name);
}

proof fn lemma_parse_items_at(s: Seq<char>, i: int, names: Seq<Seq<char>>)
    requires
        names.len() >= 1,
        valid_names(names),
        text_at(s, i, rendered_items(names)),
    ensures
        parse_items(s, i) == Some((names, i + rendered_items(names).len())),
    decreases names.len(),
{
    let name = names[0];
    let q = quoted(name);
    if names.len() == 1 {
        lemma_text_at_split(s, i, q, seq![']']);
        lemma_parse_qstring_at(s, i, name);
        let j = i + q.len();
        lemma_text_at_char(s, j, ']');
        lemma_skip_ws_noop(s, j);
        assert(seq![name] =~= names);
    } else {
        lemma_text_at_split(s, i, q + seq![','], rendered_items(names.drop_first()));
        lemma_text_at_split(s, i, q, seq![',']);
        lemma_parse_qstring_at(s, i, name);
        let j = i + q.len();
        lemma_text_at_char(s, j, ',');
        lemma_skip_ws_noop(s, j);
        let rest = rendered_items(names.drop_first());
        assert(rest == quoted(names.drop_first()[0]) + seq![']'] || rest == quoted(
            names.drop_first()[0],
        ) + seq![','] + rendered_items(names.drop_first().drop_first()));
        assert(rest[0] == '"');
        lemma_text_at_first(s, j + 1, rest);
        lemma_skip_ws_noop(s, j + 1);
        assert(valid_names(names.drop_first())) by {
            assert forall|k: int| 0 <= k < names.drop_first().len() implies valid_name(
                names.drop_first()[k],
            ) by {
                assert(names.drop_first()[k] == names[k + 1]);
            }
        }
        lemma_parse_items_at(s, j + 1, names.drop_first());
        assert(seq![name] + names.drop_first() =~= names);
    }
}

proof fn lemma_parse_array_at(s: Seq<char>, i: int, names: Seq<Seq<char>>)
    requires
        valid_names(names),
        text_at(s, i, rendered_list(names)),
    ensures
        parse_array(s, i) == Some((names, i + rendered_list(names).len())),
{
    if names.len() == 0 {
        assert(seq!['[', ']'] =~= seq!['['] + seq![']']);
        lemma_text_at_split(s, i, seq!['['], seq![']']);
        lemma_text_at_char(s, i, '[');
        lemma_text_at_char(s, i + 1, ']');
        lemma_skip_ws_noop(s, i + 1);
        assert(Seq::<Seq<char>>::empty() =~= names);
    } else {
        lemma_text_at_split(s, i, seq!['['], rendered_items(names));
        lemma_text_at_char(s, i, '[');
        let rest = rendered_items(names);
        assert(rest[0] == '"');
        lemma_text_at_first(s, i + 1, rest);
        lemma_skip_ws_noop(s, i + 1);
        lemma_parse_items_at(s, i + 1, names);
    }
}

proof fn lemma_parse_member_at(s: Seq<char>, i: int, key: Seq<char>, names: Seq<Seq<char>>)
    requires
        valid_name(key),
        valid_names(names),
        text_at(s, i, rendered_member(key, names)),
    ensures
        parse_member(s, i) == Some(((key, names), i + rendered_member(key, names).len())),
{
    let q = quoted(key);
    lemma_text_at_split(s, i, q + seq![':'], rendered_list(names));
    lemma_text_at_split(s, i, q, seq![':']);
    lemma_parse_qstring_at(s, i, key);
    let j = i + q.len();
    lemma_text_at_char(s, j, ':');
    lemma_skip_ws_noop(s, j);
    let lst = rendered_list(names);
    assert(lst[0] == '[');
    lemma_text_at_first(s, j + 1, lst);
    lemma_skip_ws_noop(s, j + 1);
    lemma_parse_array_at(s, j + 1, names);
}

proof fn lemma_keys_valid()
    ensures
        valid_name(read_key()),
        valid_name(write_key()),
        read_key() != write_key(),
{
    reveal_strlit("read_symbols");
    reveal_strlit("write_symbols");
    assert(read_key().len() == 12);
    assert(write_key().len() == 13);
    assert forall|t: int| 0 <= t < read_key().len() implies is_name_char(read_key()[t]) by {
        assert(read_key() =~= seq![
            'r',
            'e',
            'a',
            'd',
            '_',
            's',
            'y',
            'm',
            'b',
            'o',
            'l',
            's',
        ]);
    }
    assert forall|t: int| 0 <= t < write_key().len() implies is_name_char(write_key()[t]) by {
        assert(write_key() =~= seq![
            'w',
            'r',
            'i',
            't',
            'e',
            '_',
            's',
            'y',
            'm',
            'b',
            'o',
            'l',
            's',
        ]);
    }
}

/// The grammar turns nothing well-formed away: the canonical text of any
/// catalog of valid names — names of printable characters without quote or
/// backslash — parses back to exactly its two lists.
pub proof fn lemma_rendered_catalog_parses(reads: Seq<Seq<char>>, writes: Seq<Seq<char>>)
    requires
        valid_names(reads),
        valid_names(writes),
    ensures
        catalog_text(rendered_catalog(reads, writes)) == Some((reads, writes)),
{
    lemma_keys_valid();
    let s = rendered_catalog(reads, writes);
    let m1 = rendered_member(read_key(), reads);
    let m2 = rendered_member(write_key(), writes);
    assert(text_at(s, 0, s)) by {
        assert(forall|t: int| 0 <= t < s.len() ==> #[trigger] s[0 + t] == s[t]);
    }
    assert(s =~= (((seq!['{'] + m1) + seq![',']) + m2) + seq!['}']);
    lemma_text_at_split(s, 0, ((seq!['{'] + m1) + seq![',']) + m2, seq!['}']);
    lemma_text_at_split(s, 0, (seq!['{'] + m1) + seq![','], m2);
    lemma_text_at_split(s, 0, seq!['{'] + m1, seq![',']);
    lemma_text_at_split(s, 0, seq!['{'], m1);
    lemma_text_at_char(s, 0, '{');
    lemma_skip_ws_noop(s, 0);
    assert(m1[0] == '"');
    lemma_text_at_first(s, 1, m1);
    lemma_skip_ws_noop(s, 1);
    lemma_parse_member_at(s, 1, read_key(), reads);
    let j: int = 1 + m1.len() as int;
    lemma_text_at_char(s, j, ',');
    lemma_skip_ws_noop(s, j);
    assert(m2[0] == '"');
    lemma_text_at_first(s, j + 1, m2);
    lemma_skip_ws_noop(s, j + 1);
    lemma_parse_member_at(s, j + 1, write_key(), writes);
    let e: int = j + 1 + m2.len() as int;
    lemma_text_at_char(s, e, '}');
    lemma_skip_ws_noop(s, e);
    lemma_skip_ws_noop(s, e + 1);
    assert(e + 1 == s.len());
}

fn is_ws_exec(c: char) -> (r: bool)
    ensures
        r == is_ws_char(c),
{
    c == ' ' || c == '\t' || c == '\n' || c == '\r'
}

fn is_name_char_exec(c: char) -> (r: bool)
    ensures
        r == is_name_char(c),
{
    let u = c as u32;
    0x20 <= u && u <= 0x7e && c != '"' && c != '\\'
}

fn skip_ws_exec(s: &str, n: usize, i: usize) -> (r: usize)
    requires
        n as nat == s@.len(),
        i <= n,
    ensures
        i <= r <= n,
        r as int == skip_ws(s@, i as int),
{
    let mut j = i;
    while j < n && is_ws_exec(s.get_char(j))
        invariant
            i <= j <= n,
            n as nat == s@.len(),
            skip_ws(s@, i as int) == skip_ws(s@, j as int),
        decreases n - j,
    {
        j = j + 1;
    }
    j
}

fn scan_name_exec(s: &str, n: usize, i: usize) -> (r: usize)
    requires
        n as nat == s@.len(),
        i <= n,
    ensures
        i <= r <= n,
        r as int == scan_name(s@, i as int),
{
    let mut j = i;
    while j < n && is_name_char_exec(s.get_char(j))
        invariant
            i <= j <= n,
            n as nat == s@.len(),
            scan_name(s@, i as int) == scan_name(s@, j as int),
        decreases n - j,
    {
        j = j + 1;
    }
    j
}

fn parse_qstring_exec(s: &str, n: usize, i: usize) -> (r: Option<(String, usize)>)
    requires
        n as nat == s@.len(),
        i <= n,
    ensures
        match r {
            Some(p) => parse_qstring(s@, i as int) == Some((p.0@, p.1 as int)) && i < p.1 <= n,
            None => parse_qstring(s@, i as int) is None,
        },
{
    if i < n && s.get_char(i) == '"' {
        let j = scan_name_exec(s, n, i + 1);
        if j < n && s.get_char(j) == '"' {
            let name = s.substring_char(i + 1, j);
            Some((name.to_owned(), j + 1))
        } else {
            None
        }
    } else {
        None
    }
}

fn parse_items_exec(s: &str, n: usize, i: usize) -> (r: Option<(Vec<String>, usize)>)
    requires
        n as nat == s@.len(),
        i <= n,
    ensures
        match r {
            Some(p) => parse_items(s@, i as int) == Some((p.0.deep_view(), p.1 as int)) && p.1
                <= n,
            None => parse_items(s@, i as int) is None,
        },
    decreases n - i,
{
    match parse_qstring_exec(s, n, i) {
        None => None,
        Some((name, j)) => {
            let k = skip_ws_exec(s, n, j);
            if k < n && s.get_char(k) == ',' {
                let m2 = skip_ws_exec(s, n, k + 1);
                match parse_items_exec(s, n, m2) {
                    None => None,
                    Some((mut items, end)) => {
                        let ghost tail = items.deep_view();
                        items.insert(0, name);
                        proof {
                            assert(items.deep_view() =~= seq![name@] + tail);
                        }
                        Some((items, end))
                    },
                }
            } else if k < n && s.get_char(k) == ']' {
                let mut items: Vec<String> = Vec::new();
                items.push(name);
                proof {
                    assert(items.deep_view() =~= seq![name@]);
                }
                Some((items, k + 1))
            } else {
                None
            }
        },
    }
}

fn parse_array_exec(s: &str, n: usize, i: usize) -> (r: Option<(Vec<String>, usize)>)
    requires
        n as nat == s@.len(),
        i <= n,
    ensures
        match r {
            Some(p) => parse_array(s@, i as int) == Some((p.0.deep_view(), p.1 as int)) && p.1
                <= n,
            None => parse_array(s@, i as int) is None,
        },
{
    if i < n && s.get_char(i) == '[' {
        let j = skip_ws_exec(s, n, i + 1);
        if j < n && s.get_char(j) == ']' {
            let items: Vec<String> = Vec::new();
            proof {
                assert(items.deep_view() =~= Seq::<Seq<char>>::empty());
            }
            Some((items, j + 1))
        } else {
            parse_items_exec(s, n, j)
        }
    } else {
        None
    }
}

fn parse_member_exec(s: &str, n: usize, i: usize) -> (r: Option<((String, Vec<String>), usize)>)
    requires
        n as nat == s@.len(),
        i <= n,
    ensures
        match r {
            Some(p) => parse_member(s@, i as int) == Some(
                (((p.0).0@, (p.0).1.deep_view()), p.1 as int),
            ) && p.1 <= n,
            None => parse_member(s@, i as int) is None,
        },
{
    match parse_qstring_exec(s, n, i) {
        None => None,
        Some((key, j)) => {
            let k = skip_ws_exec(s, n, j);
            if k < n && s.get_char(k) == ':' {
                let a = skip_ws_exec(s, n, k + 1);
                match parse_array_exec(s, n, a) {
                    None => None,
                    Some((items, end)) => Some(((key, items), end)),
                }
            } else {
                None
            }
        },
    }
}

/// Character-for-character equality of two texts.
fn str_eq(a: &str, b: &str) -> (r: bool)
    ensures
        r == (a@ == b@),
{
    let na = a.unicode_len();
    let nb = b.unicode_len();
    if na != nb {
        proof {
            assert(a@.len() != b@.len());
        }
        return false;
    }
    let mut i: usize = 0;
    while i < na
        invariant
            0 <= i <= na,
            na as nat == a@.len(),
            nb as nat == b@.len(),
            na == nb,
            forall|t: int| 0 <= t < i ==> a@[t] == b@[t],
        decreases na - i,
    {
        if a.get_char(i) != b.get_char(i) {
            return false;
        }
        i = i + 1;
    }
    proof {
        assert(a@ =~= b@);
    }
    true
}

/// Build the catalog from the text of a catalog file. Returns the catalog
/// exactly when the text has the catalog shape (`catalog_text`), with the
/// read and write lists in declaration order; returns `None` on any other
/// text, and the caller must treat that as fatal before any device contact.
pub fn parse_catalog(s: &str) -> (r: Option<SymbolCatalog>)
    ensures
        match r {
            Some(c) => catalog_text(s@) == Some((c.read_view(), c.write_view())),
            None => catalog_text(s@) is None,
        },
{
    let n = s.unicode_len();
    let i = skip_ws_exec(s, n, 0);
    if !(i < n && s.get_char(i) == '{') {
        return None;
    }
    let j = skip_ws_exec(s, n, i + 1);
    let m1 = match parse_member_exec(s, n, j) {
        None => {
            return None;
        },
        Some(m1) => m1,
    };
    let ((key1, items1), end1) = m1;
    let k = skip_ws_exec(s, n, end1);
    if !(k < n && s.get_char(k) == ',') {
        return None;
    }
    let l = skip_ws_exec(s, n, k + 1);
    let m2 = match parse_member_exec(s, n, l) {
        None => {
            return None;
        },
        Some(m2) => m2,
    };
    let ((key2, items2), end2) = m2;
    let e = skip_ws_exec(s, n, end2);
    if !(e < n && s.get_char(e) == '}') {
        return None;
    }
    if skip_ws_exec(s, n, e + 1) != n {
        return None;
    }
    if str_eq(key1.as_str(), "read_symbols") && str_eq(key2.as_str(), "write_symbols") {
        Some(SymbolCatalog { read_symbols: items1, write_symbols: items2 })
    } else if str_eq(key1.as_str(), "write_symbols") && str_eq(key2.as_str(), "read_symbols") {
        Some(SymbolCatalog { read_symbols: items2, write_symbols: items1 })
    } else {
        None
    }
}

} // verus!
