use vstd::prelude::*;
use vstd::string::{StrSliceExecFns, StringExecFns};
use crate::error::WorldError;
use crate::text::str_eq;

verus! {

/// The characters the metadata reader trims from line ends: the Unicode
/// white-space characters (the White_Space property).
pub open spec fn is_meta_space(c: char) -> bool {
    let u = c as u32;
    u == 0x20 || (0x09 <= u && u <= 0x0d) || u == 0x85 || u == 0xa0 || u == 0x1680 || (0x2000 <= u
        && u <= 0x200a) || u == 0x2028 || u == 0x2029 || u == 0x202f || u == 0x205f || u == 0x3000
}

/// The character sequence with its leading whitespace removed.
pub open spec fn trim_front(s: Seq<char>) -> Seq<char>
    decreases s.len(),
{
    if s.len() > 0 && is_meta_space(s[0]) {
        trim_front(s.drop_first())
    } else {
        s
    }
}

/// The character sequence with its trailing whitespace removed.
pub open spec fn trim_back(s: Seq<char>) -> Seq<char>
    decreases s.len(),
{
    if s.len() > 0 && is_meta_space(s.last()) {
        trim_back(s.drop_last())
    } else {
        s
    }
}

/// The character sequence with whitespace removed from both ends.
pub open spec fn trim_chars(s: Seq<char>) -> Seq<char> {
    trim_back(trim_front(s))
}

/// The first index at or after `from` where `c` occurs, if any.
pub open spec fn find_char(s: Seq<char>, c: char, from: int) -> Option<int>
    decreases s.len() - from,
{
    if from < 0 || from >= s.len() {
        None
    } else if s[from] == c {
        Some(from)
    } else {
        find_char(s, c, from + 1)
    }
}

/// The index of the first newline at or after `from`, or the text's length
/// when no newline follows.
pub open spec fn line_end(s: Seq<char>, from: int) -> int
    decreases s.len() - from,
{
    if from < 0 || from >= s.len() {
        s.len() as int
    } else if s[from] == '\n' {
        from
    } else {
        line_end(s, from + 1)
    }
}

pub proof fn lemma_line_end(s: Seq<char>, from: int)
    requires
        0 <= from <= s.len(),
    ensures
        from <= line_end(s, from) <= s.len(),
        line_end(s, from) < s.len() ==> s[line_end(s, from)] == '\n',
        forall|k: int| from <= k < line_end(s, from) ==> s[k] != '\n',
    decreases s.len() - from,
{
    if from < s.len() && s[from] != '\n' {
        lemma_line_end(s, from + 1);
    }
}

/// A scan that saw no `c` before `e`, and `c` or the end at `e`, found the
/// first occurrence.
pub proof fn lemma_find_char(s: Seq<char>, c: char, from: int, e: int)
    requires
        0 <= from <= e <= s.len(),
        forall|k: int| from <= k < e ==> s[k] != c,
        e == s.len() || s[e] == c,
    ensures
        find_char(s, c, from) == if e < s.len() {
            Some(e)
        } else {
            None::<int>
        },
    decreases e - from,
{
    if from < e {
        lemma_find_char(s, c, from + 1, e);
    }
}

/// A scan that saw no newline before `e`, and a newline or the end at `e`,
/// found the line end.
pub proof fn lemma_line_end_eq(s: Seq<char>, from: int, e: int)
    requires
        0 <= from <= e <= s.len(),
        forall|k: int| from <= k < e ==> s[k] != '\n',
        e == s.len() || s[e] == '\n',
    ensures
        line_end(s, from) == e,
    decreases e - from,
{
    if from < e {
        lemma_line_end_eq(s, from + 1, e);
    }
}

/// Whitespace up to `i` and none at `i` pins down the front trim.
pub proof fn lemma_trim_front_range(s: Seq<char>, i: int)
    requires
        0 <= i <= s.len(),
        forall|k: int| 0 <= k < i ==> is_meta_space(s[k]),
        i == s.len() || !is_meta_space(s[i]),
    ensures
        trim_front(s) == s.subrange(i, s.len() as int),
    decreases i,
{
    if i == 0 {
        assert(s.subrange(0, s.len() as int) =~= s);
    } else {
        lemma_trim_front_range(s.drop_first(), i - 1);
        assert(s.drop_first().subrange(i - 1, s.drop_first().len() as int) =~= s.subrange(
            i,
            s.len() as int,
        ));
    }
}

/// Whitespace from `j` on and none just before `j` pins down the back trim.
pub proof fn lemma_trim_back_range(s: Seq<char>, j: int)
    requires
        0 <= j <= s.len(),
        forall|k: int| j <= k < s.len() ==> is_meta_space(s[k]),
        j == 0 || !is_meta_space(s[j - 1]),
    ensures
        trim_back(s) == s.subrange(0, j),
    decreases s.len() - j,
{
    if j == s.len() {
        if j == 0 {
            assert(s.subrange(0, 0) =~= s);
        } else {
            assert(s.subrange(0, j) =~= s);
        }
    } else {
        lemma_trim_back_range(s.drop_last(), j);
        assert(s.drop_last().subrange(0, j) =~= s.subrange(0, j));
    }
}

/// What one metadata line yields once trimmed: nothing for a blank line, the
/// trimmed key and value split at the first `=`, or, for a line with no `=`,
/// the trimmed line itself as the error.
pub open spec fn line_kv(line: Seq<char>) -> Result<Option<(Seq<char>, Seq<char>)>, Seq<char>> {
    let t = trim_chars(line);
    if t.len() == 0 {
        Ok(None)
    } else {
        match find_char(t, '=', 0) {
            None => Err(t),
            Some(e) => Ok(
                Some(
                    (
                        trim_chars(t.subrange(0, e)),
                        trim_chars(t.subrange(e + 1, t.len() as int)),
                    ),
                ),
            ),
        }
    }
}

/// What parsing the text from `from` on yields, pairs parsed so far standing
/// in `acc`: one `key = value` pair per line, blank lines skipped, a later
/// binding of a key overwriting an earlier one; or the first bad line.
pub open spec fn parse_lines_from(
    s: Seq<char>,
    from: int,
    acc: Map<Seq<char>, Seq<char>>,
) -> Result<Map<Seq<char>, Seq<char>>, Seq<char>>
    decreases s.len() - from,
{
    let e = line_end(s, from);
    match line_kv(s.subrange(from, e)) {
        Err(t) => Err(t),
        Ok(opt) => {
            let acc2 = match opt {
                Option::Some(kv) => acc.insert(kv.0, kv.1),
                Option::None => acc,
            };
            if e >= s.len() {
                Ok(acc2)
            } else {
                proof {
                    if 0 <= from <= s.len() {
                        lemma_line_end(s, from);
                    }
                }
                parse_lines_from(s, e + 1, acc2)
            }
        },
    }
}

/// What parsing a whole metadata text yields.
pub open spec fn parse_meta(s: Seq<char>) -> Result<Map<Seq<char>, Seq<char>>, Seq<char>> {
    parse_lines_from(s, 0, Map::empty())
}

/// The key-to-value map a pair list stands for: a later pair overwrites an
/// earlier one with the same key.
pub open spec fn pairs_map(s: Seq<(String, String)>) -> Map<Seq<char>, Seq<char>>
    decreases s.len(),
{
    if s.len() == 0 {
        Map::empty()
    } else {
        pairs_map(s.drop_last()).insert(s.last().0@, s.last().1@)
    }
}

proof fn lemma_pairs_map_push(s: Seq<(String, String)>, p: (String, String))
    ensures
        pairs_map(s.push(p)) == pairs_map(s).insert(p.0@, p.1@),
{
    assert(s.push(p).drop_last() =~= s);
}

/// The last pair whose key matches decides the lookup.
proof fn lemma_pairs_map_last_match(s: Seq<(String, String)>, k: Seq<char>, i: int)
    requires
        0 <= i < s.len(),
        s[i].0@ == k,
        forall|j: int| i < j < s.len() ==> s[j].0@ != k,
    ensures
        pairs_map(s).contains_key(k),
        pairs_map(s)[k] == s[i].1@,
    decreases s.len(),
{
    if i == s.len() - 1 {
    } else {
        lemma_pairs_map_last_match(s.drop_last(), k, i);
    }
}

/// No pair's key matches: the key is absent.
proof fn lemma_pairs_map_no_match(s: Seq<(String, String)>, k: Seq<char>)
    requires
        forall|j: int| 0 <= j < s.len() ==> s[j].0@ != k,
    ensures
        !pairs_map(s).contains_key(k),
    decreases s.len(),
{
    if s.len() > 0 {
        lemma_pairs_map_no_match(s.drop_last(), k);
    }
}

/// The world metadata: plain text of one `key = value` pair per line, held as
/// the parsed pairs in line order. Its mathematical content is the
/// key-to-value map those pairs stand for.
pub struct WorldMeta {
    values: Vec<(String, String)>,
}

impl View for WorldMeta {
    type V = Map<Seq<char>, Seq<char>>;

    closed spec fn view(&self) -> Map<Seq<char>, Seq<char>> {
        pairs_map(self.values@)
    }
}

/// Whether `c` is one of the characters the metadata reader trims.
fn is_space(c: char) -> (r: bool)
    ensures
        r == is_meta_space(c),
{
    let u = c as u32;
    u == 0x20 || (0x09 <= u && u <= 0x0d) || u == 0x85 || u == 0xa0 || u == 0x1680 || (0x2000 <= u
        && u <= 0x200a) || u == 0x2028 || u == 0x2029 || u == 0x202f || u == 0x205f || u == 0x3000
}

/// The bounds of `trim_chars(text@.subrange(lo, hi))` inside the text.
fn trim_bounds(text: &str, lo: usize, hi: usize) -> (r: (usize, usize))
    requires
        lo <= hi <= text@.len(),
    ensures
        lo <= r.0 <= r.1 <= hi,
        trim_chars(text@.subrange(lo as int, hi as int)) == text@.subrange(
            r.0 as int,
            r.1 as int,
        ),
{
    let ghost sub = text@.subrange(lo as int, hi as int);
    let mut a: usize = lo;
    while a < hi && is_space(text.get_char(a))
        invariant
            lo <= a <= hi <= text@.len(),
            forall|k: int| lo <= k < a ==> is_meta_space(text@[k]),
        decreases hi - a,
    {
        a = a + 1;
    }
    let mut b: usize = hi;
    while b > a && is_space(text.get_char(b - 1))
        invariant
            a <= b <= hi <= text@.len(),
            forall|k: int| b <= k < hi ==> is_meta_space(text@[k]),
        decreases b,
    {
        b = b - 1;
    }
    proof {
        assert forall|k: int| 0 <= k < a - lo implies is_meta_space(sub[k]) by {
            assert(sub[k] == text@[lo + k]);
        }
        assert(a - lo == sub.len() || !is_meta_space(sub[a - lo]));
        lemma_trim_front_range(sub, a - lo);
        let tf = sub.subrange(a - lo, sub.len() as int);
        assert forall|k: int| b - a <= k < tf.len() implies is_meta_space(tf[k]) by {
            assert(tf[k] == text@[a + k]);
        }
        assert(b - a == 0 || !is_meta_space(tf[b - a - 1]));
        lemma_trim_back_range(tf, b - a);
        assert(tf.subrange(0, b - a) =~= text@.subrange(a as int, b as int));
    }
    (a, b)
}

impl WorldMeta {
    /// Parses a metadata text, all or nothing: exactly the map that
    /// `parse_meta` gives, or `UnexpectedFormat` carrying exactly the first
    /// bad line, trimmed.
    pub fn parse(text: &str) -> (r: Result<WorldMeta, WorldError>)
        ensures
            match parse_meta(text@) {
                Ok(m) => r matches Ok(w) && w@ == m,
                Err(t) => r matches Err(e) && (e matches WorldError::UnexpectedFormat(s) && s@
                    == t),
            },
    {
        let n = text.unicode_len();
        let mut values: Vec<(String, String)> = Vec::new();
        let mut from: usize = 0;
        proof {
            assert(pairs_map(values@) =~= Map::<Seq<char>, Seq<char>>::empty());
        }
        loop
            invariant_except_break
                parse_meta(text@) == parse_lines_from(text@, from as int, pairs_map(values@)),
            invariant
                n == text@.len(),
                from <= n,
            ensures
                parse_meta(text@) == Ok::<Map<Seq<char>, Seq<char>>, Seq<char>>(
                    pairs_map(values@),
                ),
            decreases n - from,
        {
            let ghost acc = pairs_map(values@);
            let mut e: usize = from;
            while e < n && text.get_char(e) != '\n'
                invariant
                    from <= e <= n,
                    n == text@.len(),
                    forall|k: int| from <= k < e ==> text@[k] != '\n',
                decreases n - e,
            {
                e = e + 1;
            }
            proof {
                lemma_line_end_eq(text@, from as int, e as int);
            }
            let ghost line = text@.subrange(from as int, e as int);
            let (a, b) = trim_bounds(text, from, e);
            let ghost t = trim_chars(line);
            if a < b {
                let mut k: usize = a;
                while k < b && text.get_char(k) != '='
                    invariant
                        a <= k <= b <= text@.len(),
                        forall|j: int| a <= j < k ==> text@[j] != '=',
                    decreases b - k,
                {
                    k = k + 1;
                }
                proof {
                    assert(t == text@.subrange(a as int, b as int));
                    assert forall|j: int| 0 <= j < k - a implies t[j] != '=' by {
                        assert(t[j] == text@[a + j]);
                    }
                    if k < b {
                        assert(t[k - a] == text@[k as int]);
                    }
                    lemma_find_char(t, '=', 0, k - a);
                }
                if k == b {
                    let line_string = String::from_str(text.substring_char(a, b));
                    return Err(WorldError::UnexpectedFormat(line_string));
                }
                let (ka, kb) = trim_bounds(text, a, k);
                let (va, vb) = trim_bounds(text, k + 1, b);
                proof {
                    assert(t.subrange(0, k - a) =~= text@.subrange(a as int, k as int));
                    assert(t.subrange(k - a + 1, t.len() as int) =~= text@.subrange(
                        k + 1,
                        b as int,
                    ));
                }
                let key = String::from_str(text.substring_char(ka, kb));
                let val = String::from_str(text.substring_char(va, vb));
                proof {
                    lemma_pairs_map_push(values@, (key, val));
                }
                values.push((key, val));
            }
            if e == n {
                break;
            }
            from = e + 1;
        }
        Ok(WorldMeta { values })
    }

    /// Looks a key up: the value of the last line that bound the key, absent
    /// when no line did.
    pub fn get_str(&self, key: &str) -> (r: Option<&str>)
        ensures
            match r {
                Some(v) => self@.contains_key(key@) && v@ == self@[key@],
                None => !self@.contains_key(key@),
            },
    {
        let n = self.values.len();
        let mut i: usize = n;
        while i > 0
            invariant
                i <= n,
                n == self.values@.len(),
                forall|j: int| i <= j < n ==> self.values@[j].0@ != key@,
            decreases i,
        {
            i = i - 1;
            if str_eq(self.values[i].0.as_str(), key) {
                proof {
                    lemma_pairs_map_last_match(self.values@, key@, i as int);
                }
                return Some(self.values[i].1.as_str());
            }
        }
        proof {
            lemma_pairs_map_no_match(self.values@, key@);
        }
        None
    }
}

} // verus!
