use vstd::prelude::*;
use vstd::string::*;

use crate::args::ConfigError;

verus! {

/// The text an optional string holds.
pub open spec fn text_of(o: Option<String>) -> Option<Seq<char>> {
    match o {
        Some(s) => Some(s@),
        None => None,
    }
}

/// Organisation-scoped settings read from the configuration file.
#[derive(Clone, Debug)]
pub struct Config {
    org_name: Option<String>,
}

impl Config {
    pub fn new(org_name: Option<String>) -> (r: Config)
        ensures
            r.org() == text_of(org_name),
    {
        Config { org_name }
    }

    /// The organisation name, when the file gives one.
    pub closed spec fn org(&self) -> Option<Seq<char>> {
        text_of(self.org_name)
    }

    pub fn org_name(&self) -> (r: Option<&str>)
        ensures
            r is Some <==> self.org() is Some,
            r matches Some(s) ==> self.org() == Some(s@),
    {
        match &self.org_name {
            Some(s) => Some(s.as_str()),
            None => None,
        }
    }
}

/// `ch` is `c1` or `c2`.
pub open spec fn hit(ch: char, c1: char, c2: char) -> bool {
    ch == c1 || ch == c2
}

/// The first index `j` in `i..e` at which `hit(s[j], c1, c2) == want`, or
/// `e` when there is none.
pub open spec fn first_in(s: Seq<char>, i: int, e: int, c1: char, c2: char, want: bool) -> int
    decreases e - i,
{
    if i >= e {
        e
    } else if hit(s[i], c1, c2) == want {
        i
    } else {
        first_in(s, i + 1, e, c1, c2, want)
    }
}

/// End of the text of the line `s[i..e]`: `e`, less a final carriage return.
pub open spec fn content_end(s: Seq<char>, i: int, e: int) -> int {
    if i < e && s[e - 1] == '\r' {
        e - 1
    } else {
        e
    }
}

/// One line, `s[i..e]`. `None` when it is malformed; `Some(Some(v))` for
/// `org_name = "v"`; `Some(None)` for any other well-formed line: blank, a
/// `#` comment, a `[table]` header, or `key = value` with another key, whose
/// value is not looked at. Lines may be indented and may end in a carriage
/// return; spaces around `=` are optional; the quoted organisation name may be
/// followed by spaces and a `#` comment.
pub open spec fn line_entry(s: Seq<char>, i: int, e: int) -> Option<Option<Seq<char>>> {
    let f = content_end(s, i, e);
    let st = first_in(s, i, f, ' ', '\t', false);
    if st >= f || s[st] == '#' || s[st] == '[' {
        Some(None)
    } else {
        let k = first_in(s, st, f, ' ', '=', true);
        let a = first_in(s, k, f, ' ', ' ', false);
        if k == st || a >= f || s[a] != '=' {
            None
        } else if s.subrange(st, k) != "org_name"@ {
            Some(None)
        } else {
            let b = first_in(s, a + 1, f, ' ', ' ', false);
            let q = first_in(s, b + 1, f, '"', '"', true);
            let t = first_in(s, q + 1, f, ' ', ' ', false);
            if b >= f || s[b] != '"' || q >= f || (t < f && s[t] != '#') {
                None
            } else {
                Some(Some(s.subrange(b + 1, q)))
            }
        }
    }
}

/// A name found earlier, or else the outcome of the rest of the file.
pub open spec fn combine(
    found: Option<Seq<char>>,
    rest: Result<Option<Seq<char>>, ConfigError>,
) -> Result<Option<Seq<char>>, ConfigError> {
    match rest {
        Err(x) => Err(x),
        Ok(o) => Ok(if found is Some { found } else { o }),
    }
}

/// The organisation name that the lines of `s` from index `i` on give (the
/// first `org_name` line wins), or `Malformed` when any line is malformed.
pub open spec fn config_from(s: Seq<char>, i: int) -> Result<Option<Seq<char>>, ConfigError>
    decreases s.len() + 1 - i,
    via config_from_decreases
{
    if i >= s.len() {
        Ok(None)
    } else {
        let e = first_in(s, i, s.len() as int, '\n', '\n', true);
        match line_entry(s, i, e) {
            None => Err(ConfigError::Malformed),
            Some(entry) => combine(entry, config_from(s, e + 1)),
        }
    }
}

#[via_fn]
proof fn config_from_decreases(s: Seq<char>, i: int) {
    if i < s.len() {
        lemma_first_in_bounds(s, i, s.len() as int, '\n', '\n', true);
    }
}

proof fn lemma_first_in_bounds(s: Seq<char>, i: int, e: int, c1: char, c2: char, want: bool)
    requires
        i <= e,
    ensures
        i <= first_in(s, i, e, c1, c2, want) <= e,
    decreases e - i,
{
    if i < e && hit(s[i], c1, c2) != want {
        lemma_first_in_bounds(s, i + 1, e, c1, c2, want);
    }
}

/// The first index in `i..e` of `text` whose character is (or, with `want`
/// false, is not) `c1` or `c2`; `e` when there is none.
fn scan(text: &str, i: usize, e: usize, c1: char, c2: char, want: bool) -> (r: usize)
    requires
        i <= e <= text@.len(),
    ensures
        r == first_in(text@, i as int, e as int, c1, c2, want),
        i <= r <= e,
{
    proof {
        lemma_first_in_bounds(text@, i as int, e as int, c1, c2, want);
    }
    let mut j: usize = i;
    while j < e
        invariant
            i <= j <= e <= text@.len(),
            first_in(text@, j as int, e as int, c1, c2, want) == first_in(
                text@,
                i as int,
                e as int,
                c1,
                c2,
                want,
            ),
        decreases e - j,
    {
        let ch = text.get_char(j);
        if (ch == c1 || ch == c2) == want {
            return j;
        }
        j = j + 1;
    }
    j
}

/// Whether `text[i..k]` is the key `org_name`.
fn is_org_key(text: &str, i: usize, k: usize) -> (r: bool)
    requires
        i <= k <= text@.len(),
    ensures
        r == (text@.subrange(i as int, k as int) == "org_name"@),
{
    proof {
        reveal_strlit("org_name");
    }
    let word = "org_name";
    let ghost key = text@.subrange(i as int, k as int);
    if k - i != 8 {
        assert(key.len() != word@.len());
        return false;
    }
    let mut j: usize = 0;
    while j < 8
        invariant
            j <= 8,
            k - i == 8,
            i <= k <= text@.len(),
            word@ == "org_name"@,
            word@.len() == 8,
            key == text@.subrange(i as int, k as int),
            forall|t: int| 0 <= t < j ==> text@[i + t] == word@[t],
        decreases 8 - j,
    {
        let x = text.get_char(i + j);
        let y = word.get_char(j);
        if x != y {
            assert(key.len() == 8);
            assert(key[j as int] == x);
            assert(word@[j as int] == y);
            assert(key != word@);
            return false;
        }
        j = j + 1;
    }
    assert(key =~= word@);
    true
}

impl Config {
    /// Reads the configuration text: lines `key = "value"`, blank lines and
    /// `#` comments. The first `org_name` line gives the organisation name;
    /// other keys are accepted and ignored. Any other line is `Malformed`.
    pub fn from_text(text: &str) -> (r: Result<Config, ConfigError>)
        ensures
            config_from(text@, 0) matches Ok(o) ==> r matches Ok(c) && c.org() == o,
            config_from(text@, 0) matches Err(x) ==> r == Err::<Config, ConfigError>(x),
    {
        let n = text.unicode_len();
        let mut found: Option<String> = None;
        let mut pos: usize = 0;
        while pos < n
            invariant
                n == text@.len(),
                pos <= n,
                combine(text_of(found), config_from(text@, pos as int)) == config_from(text@, 0),
            decreases n - pos,
        {
            let e = scan(text, pos, n, '\n', '\n', true);
            let i = pos;
            let f = if i < e && text.get_char(e - 1) == '\r' {
                e - 1
            } else {
                e
            };
            let st = scan(text, i, f, ' ', '\t', false);
            let line_ok: bool;
            let mut value: Option<String> = None;
            if st >= f || text.get_char(st) == '#' || text.get_char(st) == '[' {
                line_ok = true;
            } else {
                let k = scan(text, st, f, ' ', '=', true);
                let a = scan(text, k, f, ' ', ' ', false);
                if k == st || a >= f || text.get_char(a) != '=' {
                    line_ok = false;
                } else if !is_org_key(text, st, k) {
                    line_ok = true;
                } else {
                    let b = scan(text, a + 1, f, ' ', ' ', false);
                    if b >= f || text.get_char(b) != '"' {
                        line_ok = false;
                    } else {
                        let q = scan(text, b + 1, f, '"', '"', true);
                        if q >= f {
                            line_ok = false;
                        } else {
                            let t = scan(text, q + 1, f, ' ', ' ', false);
                            if t < f && text.get_char(t) != '#' {
                                line_ok = false;
                            } else {
                                line_ok = true;
                                value = Some(text.substring_char(b + 1, q).to_owned());
                            }
                        }
                    }
                }
            }
            assert(line_entry(text@, i as int, e as int) is Some == line_ok);
            if !line_ok {
                return Err(ConfigError::Malformed);
            }
            assert(text_of(value) == line_entry(text@, i as int, e as int)->Some_0);
            if found.is_none() {
                found = value;
            }
            proof {
                lemma_first_in_bounds(text@, i as int, n as int, '\n', '\n', true);
            }
            if e >= n {
                pos = n;
            } else {
                pos = e + 1;
            }
            assert(e as int + 1 >= n ==> config_from(text@, e as int + 1) == config_from(text@, pos as int));
        }
        Ok(Config { org_name: found })
    }
}

} // verus!
