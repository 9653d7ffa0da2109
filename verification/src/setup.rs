//! First-time setup: the rule for user names and the configuration file
//! written for one.

use vstd::prelude::*;

verus! {

/// What `char::is_alphanumeric` answers: whether the character is
/// Unicode Alphabetic or Numeric.
pub uninterp spec fn is_alphanumeric(c: char) -> bool;

/// Calls `char::is_alphanumeric`. Claimed: the answer is
/// `is_alphanumeric` of the character, a function of it alone.
#[verifier::external_body]
fn char_is_alphanumeric(c: char) -> (r: bool)
    ensures
        r == is_alphanumeric(c),
{
    c.is_alphanumeric()
}

/// Calls `str::chars` and collects the characters. Claimed: they are the
/// text's characters, in order.
#[verifier::external_body]
fn chars_of(s: &str) -> (r: Vec<char>)
    ensures
        r@ == s@,
{
    s.chars().collect()
}

/// A user name is 3 to 20 bytes long (in UTF-8) and made of letters,
/// digits and underscores.
pub open spec fn username_ok(byte_len: nat, text: Seq<char>) -> bool {
    &&& 3 <= byte_len <= 20
    &&& forall|i: int| 0 <= i < text.len() ==> is_alphanumeric(#[trigger] text[i]) || text[i] == '_'
}

/// Whether `name` is an acceptable user name.
pub fn valid_username(name: &str) -> (r: bool)
    ensures
        r == username_ok(name.len() as nat, name@),
{
    let n = name.len();
    if n < 3 || n > 20 {
        return false;
    }
    let chars = chars_of(name);
    let mut i: usize = 0;
    while i < chars.len()
        invariant
            i <= chars@.len(),
            chars@ == name@,
            forall|k: int| 0 <= k < i ==> is_alphanumeric(#[trigger] chars@[k]) || chars@[k] == '_',
        decreases chars.len() - i,
    {
        let c = chars[i];
        if !(char_is_alphanumeric(c) || c == '_') {
            return false;
        }
        i = i + 1;
    }
    assert(forall|k: int| 0 <= k < name@.len() ==> is_alphanumeric(#[trigger] name@[k]) || name@[k] == '_');
    true
}

/// The text before the user name in the configuration file.
pub open spec fn config_head() -> Seq<char> {
    "# Polygone Configuration\n# Generated by polygone setup\n\n[setup]\nusername = \""@
}

/// The text after the user name in the configuration file.
pub open spec fn config_tail() -> Seq<char> {
    "\"\nlanguage = \"fr\"\n\n[node]\nauto_connect = false\nbootstrap_nodes = [\"127.0.0.1:9001\"]\n\n[network]\nmax_peers = 50\n"@
}

/// The configuration file written by setup for `username`.
pub fn config_text(username: &str) -> (r: String)
    ensures
        r@ == config_head() + username@ + config_tail(),
{
    let mut r = "# Polygone Configuration\n# Generated by polygone setup\n\n[setup]\nusername = \"".to_string();
    r.push_str(username);
    r.push_str("\"\nlanguage = \"fr\"\n\n[node]\nauto_connect = false\nbootstrap_nodes = [\"127.0.0.1:9001\"]\n\n[network]\nmax_peers = 50\n");
    r
}

/// The position of the first `c` in `t`, or its length when there is none.
pub open spec fn char_pos(t: Seq<char>, c: char) -> nat
    decreases t.len(),
{
    if t.len() == 0 || t[0] == c { 0 } else { 1 + char_pos(t.drop_first(), c) }
}

proof fn lemma_char_pos(t: Seq<char>, c: char, m: int)
    requires
        0 <= m <= t.len(),
        forall|k: int| 0 <= k < m ==> t[k] != c,
        m == t.len() || t[m] == c,
    ensures
        char_pos(t, c) == m,
    decreases m,
{
    if m > 0 {
        assert forall|k: int| 0 <= k < m - 1 implies t.drop_first()[k] != c by {
            assert(t.drop_first()[k] == t[k + 1]);
        }
        if m < t.len() {
            assert(t.drop_first()[m - 1] == t[m]);
        }
        lemma_char_pos(t.drop_first(), c, m - 1);
    }
}

proof fn lemma_char_pos_props(t: Seq<char>, c: char)
    ensures
        char_pos(t, c) <= t.len(),
        forall|k: int| 0 <= k < char_pos(t, c) ==> t[k] != c,
        char_pos(t, c) < t.len() ==> t[char_pos(t, c) as int] == c,
    decreases t.len(),
{
    if t.len() > 0 && t[0] != c {
        lemma_char_pos_props(t.drop_first(), c);
        assert forall|k: int| 0 <= k < char_pos(t, c) implies t[k] != c by {
            if k > 0 { assert(t[k] == t.drop_first()[k - 1]); }
        }
    }
}

/// In a prefix of `m` characters the first `c` is where it is in the
/// whole, or nowhere (`m`) when it lies beyond.
proof fn lemma_char_pos_take(t: Seq<char>, c: char, m: int)
    requires
        0 <= m <= t.len(),
    ensures
        char_pos(t.take(m), c) == if char_pos(t, c) < m { char_pos(t, c) as int } else { m },
{
    lemma_char_pos_props(t, c);
    let p = if char_pos(t, c) < m { char_pos(t, c) as int } else { m };
    assert forall|k: int| 0 <= k < p implies t.take(m)[k] != c by {}
    lemma_char_pos(t.take(m), c, p);
}

/// Whether `p` occurs in `l`.
pub open spec fn has_sub(l: Seq<char>, p: Seq<char>) -> bool {
    exists|i: int| 0 <= i && i + p.len() <= l.len() && #[trigger] l.subrange(i, i + p.len()) == p
}

/// The second piece of a line cut at each double quote: the text after
/// the first quote up to the next one (or the end), when there is a quote.
pub open spec fn quoted_piece(line: Seq<char>) -> Option<Seq<char>> {
    let q = char_pos(line, '"');
    if q == line.len() {
        None
    } else {
        let rest = line.skip(q + 1 as int);
        Some(rest.take(char_pos(rest, '"') as int))
    }
}

/// The first line of `t` that holds "username", lines taken as
/// `str::lines` gives them (cut at '\n', a '\r' before it dropped).
pub open spec fn username_line(t: Seq<char>) -> Option<Seq<char>>
    decreases t.len(),
{
    if t.len() == 0 {
        None
    } else {
        let n = char_pos(t, '\n');
        let raw = t.take(n as int);
        let line = if n < t.len() && raw.len() > 0 && raw.last() == '\r' { raw.drop_last() } else { raw };
        if has_sub(line, "username"@) {
            Some(line)
        } else if n >= t.len() {
            None
        } else {
            username_line(t.skip(n + 1 as int))
        }
    }
}

/// The user name a configuration file names: the quoted text of its first
/// line that holds "username", or "?".
pub open spec fn configured_username(t: Seq<char>) -> Seq<char> {
    match username_line(t) {
        Some(l) => match quoted_piece(l) {
            Some(q) => q,
            None => "?"@,
        },
        None => "?"@,
    }
}

/// Position of the first `c` in `v` at or after `from`, or the length.
fn find_char(v: &Vec<char>, from: usize, c: char) -> (r: usize)
    requires
        from <= v@.len(),
    ensures
        r == from + char_pos(v@.skip(from as int), c),
        r <= v@.len(),
{
    let mut k: usize = from;
    while k < v.len() && v[k] != c
        invariant
            from <= k <= v@.len(),
            forall|j: int| from <= j < k ==> v@[j] != c,
        decreases v.len() - k,
    {
        k = k + 1;
    }
    proof {
        let t = v@.skip(from as int);
        assert forall|j: int| 0 <= j < k - from implies t[j] != c by {
            assert(t[j] == v@[from + j]);
        }
        if k < v@.len() {
            assert(t[k - from] == v@[k as int]);
        }
        lemma_char_pos(t, c, k - from);
    }
    k
}

/// Whether the characters `v[lo..hi]` hold `p`.
fn holds_sub(v: &Vec<char>, lo: usize, hi: usize, p: &Vec<char>) -> (r: bool)
    requires
        lo <= hi <= v@.len(),
    ensures
        r == has_sub(v@.subrange(lo as int, hi as int), p@),
{
    let ghost l = v@.subrange(lo as int, hi as int);
    if p.len() > hi - lo {
        proof {
            assert forall|i: int| 0 <= i && i + p@.len() <= l.len() implies #[trigger] l.subrange(i, i + p@.len()) != p@ by {}
        }
        return false;
    }
    if p.len() == 0 {
        proof {
            assert(l.subrange(0int, 0int + p@.len()) =~= p@);
        }
        return true;
    }
    let last = hi - lo - p.len();
    let mut i: usize = 0;
    while i <= last
        invariant
            lo <= hi <= v@.len(),
            l == v@.subrange(lo as int, hi as int),
            1 <= p@.len() <= hi - lo,
            last == hi - lo - p@.len(),
            i <= last + 1,
            forall|a: int| 0 <= a < i ==> #[trigger] l.subrange(a, a + p@.len()) != p@,
        decreases last + 1 - i,
    {
        let mut j: usize = 0;
        while j < p.len() && v[lo + i + j] == p[j]
            invariant
                lo <= hi <= v@.len(),
                i + p@.len() <= hi - lo,
                j <= p@.len(),
                forall|b: int| 0 <= b < j ==> v@[lo + i + b] == p@[b],
            decreases p.len() - j,
        {
            j = j + 1;
        }
        if j == p.len() {
            proof {
                assert(l.subrange(i as int, i + p@.len()) =~= p@);
            }
            return true;
        }
        proof {
            assert(l.subrange(i as int, i + p@.len())[j as int] == v@[lo + i + j]);
        }
        i = i + 1;
    }
    false
}

/// The user name named by a configuration file's text, as the status
/// command shows it.
pub fn username_from_config(content: &str) -> (r: String)
    ensures
        r@ == configured_username(content@),
{
    proof { reveal_strlit("username"); reveal_strlit("?"); }
    let v = chars_of(content);
    let p = chars_of("username");
    let mut start: usize = 0;
    let mut found: Option<(usize, usize)> = None;
    assert(v@.skip(0) =~= v@);
    while start < v.len()
        invariant_except_break
            start <= v@.len(),
            found is None,
            username_line(content@) == username_line(v@.skip(start as int)),
        invariant
            v@ == content@,
            p@ == "username"@,
        ensures
            found matches Some((lo, hi)) ==> lo <= hi <= v@.len()
                && username_line(content@) == Some(v@.subrange(lo as int, hi as int)),
            found is None ==> username_line(content@) is None,
        decreases v.len() - start,
    {
        let ghost t = v@.skip(start as int);
        let end = find_char(&v, start, '\n');
        let ghost n = char_pos(t, '\n');
        let mut line_end = end;
        if end < v.len() && end > start && v[end - 1] == '\r' {
            line_end = end - 1;
        }
        proof {
            assert(t.len() > 0);
            assert(t.take(n as int) =~= v@.subrange(start as int, end as int));
            if end < v@.len() && end > start && v@[end - 1] == '\r' {
                assert(t.take(n as int).drop_last() =~= v@.subrange(start as int, line_end as int));
            }
        }
        if holds_sub(&v, start, line_end, &p) {
            found = Some((start, line_end));
            break;
        }
        if end >= v.len() {
            break;
        }
        proof {
            assert(t.skip(n + 1 as int) =~= v@.skip(end + 1));
        }
        start = end + 1;
    }
    match found {
        None => {
            "?".to_string()
        },
        Some((lo, hi)) => {
            let ghost line = v@.subrange(lo as int, hi as int);
            let q = find_char(&v, lo, '"');
            proof {
                assert(line =~= v@.skip(lo as int).take(hi - lo));
                lemma_char_pos_take(v@.skip(lo as int), '"', hi - lo);
            }
            if q >= hi {
                "?".to_string()
            } else {
                let e = find_char(&v, q + 1, '"');
                let e2 = if e < hi { e } else { hi };
                proof {
                    let rest = line.skip(q - lo + 1);
                    assert(rest =~= v@.skip(q + 1).take(hi - q - 1));
                    lemma_char_pos_take(v@.skip(q + 1), '"', hi - q - 1);
                    assert(rest.take(e2 - q - 1) =~= v@.subrange(q + 1, e2 as int));
                }
                let mut r = String::new();
                let mut k: usize = q + 1;
                while k < e2
                    invariant
                        q + 1 <= k <= e2,
                        e2 <= v@.len(),
                        r@ == v@.subrange(q + 1, k as int),
                    decreases e2 - k,
                {
                    r.push(v[k]);
                    k = k + 1;
                    assert(r@ =~= v@.subrange(q + 1, k as int));
                }
                r
            }
        },
    }
}
} // verus!
