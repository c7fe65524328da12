//! The translation engine: an immutable key-to-template table and the
//! placeholder substitution applied while rendering translatable content.
//!
//! A template holds tokens of the shape `%` + optional one-based index +
//! `$` + one letter, plus the `%%` escape. Only `s` tokens substitute an
//! argument; other letters are dropped, and every failure degrades to an
//! empty substitution — translation never fails.

use vstd::prelude::*;
use vstd::string::StringExecFns;

use crate::error::TranslationParseError;
use crate::text::{push_char, str_chars, str_eq};

verus! {

/// A name for what `serde_json::from_str::<HashMap<String, String>>` returns:
/// `Some` of the key-to-template mapping when the text is a valid JSON
/// object of strings, and `None` when the decoder rejects the text.
pub uninterp spec fn spec_json_translations(s: Seq<char>) -> Option<Map<Seq<char>, Seq<char>>>;

/// The key-to-template table, as ordered key/template pairs; lookups take
/// the first pair whose key matches.
#[derive(Debug, Clone)]
pub struct Translator {
    entries: Vec<(String, String)>,
}

impl View for Translator {
    type V = Seq<(Seq<char>, Seq<char>)>;

    closed spec fn view(&self) -> Seq<(Seq<char>, Seq<char>)> {
        Seq::new(self.entries@.len(), |i: int| (self.entries@[i].0@, self.entries@[i].1@))
    }
}

impl Default for Translator {
    /// The empty table: every key falls back.
    fn default() -> (r: Self)
        ensures
            r@ == Seq::<(Seq<char>, Seq<char>)>::empty(),
    {
        let r = Translator { entries: Vec::new() };
        proof {
            assert(r@ =~= Seq::<(Seq<char>, Seq<char>)>::empty());
        }
        r
    }
}

/// First-match lookup of a key in the table.
pub open spec fn spec_lookup(entries: Seq<(Seq<char>, Seq<char>)>, key: Seq<char>) -> Option<
    Seq<char>,
>
    decreases entries.len(),
{
    if entries.len() == 0 {
        None
    } else if entries[0].0 == key {
        Some(entries[0].1)
    } else {
        spec_lookup(entries.drop_first(), key)
    }
}

/// The template used for a key: the table entry, else the fallback, else
/// the key itself.
pub open spec fn spec_template(
    entries: Seq<(Seq<char>, Seq<char>)>,
    key: Seq<char>,
    fallback: Option<Seq<char>>,
) -> Seq<char> {
    match spec_lookup(entries, key) {
        Some(t) => t,
        None => match fallback {
            Some(f) => f,
            None => key,
        },
    }
}

/// Whether `c` is an ASCII decimal digit.
pub open spec fn spec_is_digit(c: char) -> bool {
    '0' as u32 <= c as u32 && c as u32 <= '9' as u32
}

/// The value of an ASCII decimal digit character.
pub open spec fn spec_digit_val(c: char) -> int {
    c as u32 - '0' as u32
}

/// Whether `c` is an ASCII letter, the token-code alphabet besides `%`.
pub open spec fn spec_is_letter(c: char) -> bool {
    ('a' as u32 <= c as u32 && c as u32 <= 'z' as u32) || ('A' as u32 <= c as u32 && c as u32
        <= 'Z' as u32)
}

/// The length of the leading run of decimal digits.
pub open spec fn spec_digit_run(s: Seq<char>) -> nat
    decreases s.len(),
{
    if s.len() > 0 && spec_is_digit(s[0]) {
        1 + spec_digit_run(s.drop_first())
    } else {
        0
    }
}

/// The numeric value of a most-significant-first digit sequence.
pub open spec fn spec_digits_val(s: Seq<char>) -> int
    decreases s.len(),
{
    if s.len() == 0 {
        0
    } else {
        spec_digits_val(s.drop_last()) * 10 + spec_digit_val(s.last())
    }
}

/// Substitution over a template, from the front. `cursor` counts the
/// implicit (unindexed) `%s` tokens already consumed. At a `%`, a token is
/// an optional digit run plus `$`, then a letter, `%`, or the end of the
/// template: `%%` stays as the literal two-character escape, `%s`
/// substitutes an argument (out-of-range indices give the empty string),
/// any other letter drops the token, and the bare end of the template
/// drops the rest. A `%` that starts no token is copied.
pub open spec fn spec_subst(t: Seq<char>, args: Seq<Seq<char>>, cursor: int) -> Seq<char>
    decreases t.len(),
{
    if t.len() == 0 {
        Seq::<char>::empty()
    } else if t[0] != '%' {
        seq![t[0]] + spec_subst(t.skip(1), args, cursor)
    } else {
        let k = spec_digit_run(t.skip(1)) as int;
        let explicit = k > 0 && 1 + k < t.len() && t[1 + k] == '$';
        let p = if explicit {
            2 + k
        } else {
            1
        };
        if p == t.len() {
            Seq::<char>::empty()
        } else if t[p] == '%' {
            seq!['%', '%'] + spec_subst(t.skip(p + 1), args, cursor)
        } else if t[p] == 's' {
            if explicit {
                let n = spec_digits_val(t.subrange(1, 1 + k));
                (if 1 <= n <= args.len() {
                    args[n - 1]
                } else {
                    Seq::<char>::empty()
                }) + spec_subst(t.skip(p + 1), args, cursor)
            } else {
                (if 0 <= cursor < args.len() {
                    args[cursor]
                } else {
                    Seq::<char>::empty()
                }) + spec_subst(t.skip(p + 1), args, cursor + 1)
            }
        } else if spec_is_letter(t[p]) {
            spec_subst(t.skip(p + 1), args, cursor)
        } else {
            seq!['%'] + spec_subst(t.skip(1), args, cursor)
        }
    }
}

/// The view of an optional borrowed string.
pub open spec fn spec_opt_str_view(f: Option<&str>) -> Option<Seq<char>> {
    match f {
        Some(s) => Some(s@),
        None => None,
    }
}

/// What translation returns: the template chosen for the key, with its
/// placeholder tokens substituted from the start.
pub open spec fn spec_translate(
    entries: Seq<(Seq<char>, Seq<char>)>,
    key: Seq<char>,
    args: Seq<Seq<char>>,
    fallback: Option<Seq<char>>,
) -> Seq<char> {
    spec_subst(spec_template(entries, key, fallback), args, 0)
}

/// Whether the table's keys are pairwise distinct.
pub open spec fn spec_keys_distinct(entries: Seq<(Seq<char>, Seq<char>)>) -> bool {
    forall|i: int, j: int|
        0 <= i < j < entries.len() ==> (#[trigger] entries[i]).0 != (#[trigger] entries[j]).0
}

/// The table as a key-to-template map, later pairs winning.
pub open spec fn spec_entry_map(entries: Seq<(Seq<char>, Seq<char>)>) -> Map<Seq<char>, Seq<char>>
    decreases entries.len(),
{
    if entries.len() == 0 {
        Map::<Seq<char>, Seq<char>>::empty()
    } else {
        spec_entry_map(entries.drop_last()).insert(entries.last().0, entries.last().1)
    }
}

/// A lookup skips a prefix that holds no matching key.
proof fn lemma_lookup_prefix(entries: Seq<(Seq<char>, Seq<char>)>, key: Seq<char>, i: int)
    requires
        0 <= i <= entries.len(),
        forall|j: int| 0 <= j < i ==> (#[trigger] entries[j]).0 != key,
    ensures
        spec_lookup(entries, key) == spec_lookup(entries.skip(i), key),
    decreases i,
{
    if i > 0 {
        assert(entries.len() > 0);
        assert(entries[0].0 != key);
        lemma_lookup_prefix(entries.drop_first(), key, i - 1);
        assert(entries.drop_first().skip(i - 1) =~= entries.skip(i));
    } else {
        assert(entries.skip(0) =~= entries);
    }
}

/// On a table with distinct keys, first-match lookup agrees with the
/// table read as a map: the two views of the state cannot drift apart.
pub proof fn lemma_lookup_entry_map(entries: Seq<(Seq<char>, Seq<char>)>, key: Seq<char>)
    requires
        spec_keys_distinct(entries),
    ensures
        spec_lookup(entries, key) == (if spec_entry_map(entries).dom().contains(key) {
            Some(spec_entry_map(entries)[key])
        } else {
            None
        }),
    decreases entries.len(),
{
    if entries.len() > 0 {
        let butlast = entries.drop_last();
        assert(spec_keys_distinct(butlast)) by {
            assert(forall|i: int, j: int|
                0 <= i < j < butlast.len() ==> (#[trigger] butlast[i]) == entries[i] && (
                #[trigger] butlast[j]) == entries[j]);
        }
        lemma_lookup_entry_map(butlast, key);
        lemma_lookup_last(entries, key);
        lemma_lookup_some_exists(butlast, key);
        if entries.last().0 == key {
            assert(forall|j: int|
                0 <= j < butlast.len() ==> (#[trigger] butlast[j]).0 != key) by {
                assert(forall|j: int|
                    0 <= j < butlast.len() ==> (#[trigger] butlast[j]) == entries[j] && entries[j].0
                        != entries[entries.len() - 1].0);
            }
            assert(spec_lookup(butlast, key) is None);
        }
    }
}

/// A lookup succeeds exactly when some pair carries the key.
proof fn lemma_lookup_some_exists(entries: Seq<(Seq<char>, Seq<char>)>, key: Seq<char>)
    ensures
        (spec_lookup(entries, key) is Some) <==> exists|j: int|
            0 <= j < entries.len() && (#[trigger] entries[j]).0 == key,
    decreases entries.len(),
{
    if entries.len() > 0 {
        lemma_lookup_some_exists(entries.drop_first(), key);
        if entries[0].0 == key {
        } else {
            assert forall|j: int|
                0 <= j < entries.len() && (#[trigger] entries[j]).0
                    == key implies spec_lookup(entries, key) is Some by {
                assert(j > 0);
                assert(entries.drop_first()[j - 1] == entries[j]);
            }
            if spec_lookup(entries, key) is Some {
                let j = choose|j: int|
                    0 <= j < entries.drop_first().len() && (#[trigger] entries.drop_first()[j]).0
                        == key;
                assert(entries[j + 1] == entries.drop_first()[j]);
            }
        }
    }
}

/// Helper: first-match lookup in terms of all-but-last and the last pair.
proof fn lemma_lookup_last(entries: Seq<(Seq<char>, Seq<char>)>, key: Seq<char>)
    requires
        entries.len() > 0,
    ensures
        spec_lookup(entries, key) == (if spec_lookup(entries.drop_last(), key) is Some {
            spec_lookup(entries.drop_last(), key)
        } else if entries.last().0 == key {
            Some(entries.last().1)
        } else {
            None
        }),
    decreases entries.len(),
{
    let butlast = entries.drop_last();
    if entries.len() == 1 {
        assert(butlast.len() == 0);
        assert(entries[0] == entries.last());
    } else {
        assert(entries[0] == butlast[0]);
        lemma_lookup_last(entries.drop_first(), key);
        assert(entries.drop_first().drop_last() =~= butlast.drop_first());
        assert(entries.drop_first().last() == entries.last());
    }
}

/// The value of a digit run is not negative.
proof fn lemma_digits_val_nonneg(s: Seq<char>)
    requires
        forall|j: int| 0 <= j < s.len() ==> spec_is_digit(#[trigger] s[j]),
    ensures
        spec_digits_val(s) >= 0,
    decreases s.len(),
{
    if s.len() > 0 {
        lemma_digits_val_nonneg(s.drop_last());
    }
}

/// A counted leading digit run is the maximal one.
proof fn lemma_digit_run_count(s: Seq<char>, k: int)
    requires
        0 <= k <= s.len(),
        forall|j: int| 0 <= j < k ==> spec_is_digit(#[trigger] s[j]),
        k == s.len() || !spec_is_digit(s[k]),
    ensures
        spec_digit_run(s) == k,
    decreases k,
{
    if k == 0 {
    } else {
        lemma_digit_run_count(s.drop_first(), k - 1);
    }
}

/// Whether `c` is an ASCII decimal digit.
fn is_digit_char(c: char) -> (r: bool)
    ensures
        r == spec_is_digit(c),
{
    let u = c as u32;
    ('0' as u32) <= u && u <= ('9' as u32)
}

/// The value of an ASCII decimal digit character.
fn digit_val_char(c: char) -> (r: u32)
    requires
        spec_is_digit(c),
    ensures
        r == spec_digit_val(c),
        r <= 9,
{
    c as u32 - '0' as u32
}

/// Whether `c` is an ASCII letter.
fn is_letter_char(c: char) -> (r: bool)
    ensures
        r == spec_is_letter(c),
{
    let u = c as u32;
    (('a' as u32) <= u && u <= ('z' as u32)) || (('A' as u32) <= u && u <= ('Z' as u32))
}

/// Relies on `serde_json::from_str::<HashMap<String, String>>`: it succeeds
/// exactly on valid JSON text for a string-to-string object — a pure
/// function of the text, named by [`spec_json_translations`] — and the
/// decoded map then holds exactly the object's key-to-template pairs, each
/// key once. On failure the decoder's message is handed back.
#[verifier::external_body]
fn parse_translations(content: &str) -> (r: Result<Vec<(String, String)>, String>)
    ensures
        r is Ok <==> spec_json_translations(content@) is Some,
        r matches Ok(v) ==> spec_keys_distinct(v.deep_view()) && Some(
            spec_entry_map(v.deep_view()),
        ) == spec_json_translations(content@),
{
    match serde_json::from_str::<std::collections::HashMap<String, String>>(content) {
        Ok(map) => Ok(map.into_iter().collect()),
        Err(err) => Err(err.to_string()),
    }
}

impl Translator {
    /// A table holding the given key/template pairs, in order.
    pub fn from_pairs(pairs: Vec<(String, String)>) -> (r: Self)
        ensures
            r@.len() == pairs@.len(),
            forall|i: int|
                0 <= i < pairs@.len() ==> r@[i] == ((#[trigger] pairs@[i]).0@, pairs@[i].1@),
    {
        Translator { entries: pairs }
    }

    /// Builds the table from JSON text holding one flat object of strings.
    /// The decoding itself is the serializer's: it returns `Ok` exactly when
    /// the text is such an object, and the table then holds exactly the
    /// object's pairs, each key once. A rejected text gives an error that
    /// carries the decoder's diagnostic as a plain message rather than the
    /// decoder's own error value.
    pub fn from_translation_content(translation_file_content: &str) -> (r: Result<
        Self,
        TranslationParseError,
    >)
        ensures
            r is Ok <==> spec_json_translations(translation_file_content@) is Some,
            r matches Ok(t) ==> spec_keys_distinct(t@) && Some(spec_entry_map(t@))
                == spec_json_translations(translation_file_content@),
    {
        match parse_translations(translation_file_content) {
            Ok(pairs) => {
                let ghost dv = pairs.deep_view();
                let t = Translator { entries: pairs };
                proof {
                    assert(t@ =~= dv);
                }
                Ok(t)
            },
            Err(message) => Err(TranslationParseError { message }),
        }
    }

    /// The template the table holds for `key`, if any: the first pair whose
    /// key matches.
    fn lookup(&self, key: &str) -> (r: Option<String>)
        ensures
            match spec_lookup(self@, key@) {
                Some(t) => r matches Some(s) && s@ == t,
                None => r is None,
            },
    {
        let n = self.entries.len();
        let mut i: usize = 0;
        while i < n
            invariant
                i <= n,
                n == self.entries@.len(),
                forall|j: int| 0 <= j < i ==> (#[trigger] self@[j]).0 != key@,
            decreases n - i,
        {
            if str_eq(self.entries[i].0.as_str(), key) {
                proof {
                    assert(self@[i as int].0 == key@);
                    lemma_lookup_prefix(self@, key@, i as int);
                    assert(self@.skip(i as int)[0] == self@[i as int]);
                }
                return Some(self.entries[i].1.clone());
            }
            proof {
                assert(self@[i as int].0 == self.entries@[i as int].0@);
            }
            i = i + 1;
        }
        proof {
            lemma_lookup_prefix(self@, key@, n as int);
            assert(self@.skip(n as int).len() == 0);
        }
        None
    }

    /// Resolves `translate` to a template (table entry, else `fallback`,
    /// else the key itself) and substitutes the placeholder tokens with
    /// `args`. Indexed `%N$s` tokens take `args[N-1]`; plain `%s` tokens
    /// consume the next unused argument; missing arguments substitute the
    /// empty string. Never fails.
    pub fn translate(&self, translate: &str, args: &Vec<String>, fallback: Option<&str>) -> (r:
        String)
        ensures
            r@ == spec_translate(self@, translate@, args.deep_view(), spec_opt_str_view(fallback)),
    {
        let looked_up = self.lookup(translate);
        let template: String = match looked_up {
            Some(t) => t,
            None => match fallback {
                Some(f) => String::from_str(f),
                None => String::from_str(translate),
            },
        };
        proof {
            assert(template@ == spec_template(
                self@,
                translate@,
                spec_opt_str_view(fallback),
            ));
        }
        substitute(template.as_str(), args)
    }
}

/// Applies the placeholder substitution of [`spec_subst`] to a template.
#[verifier::rlimit(50)]
#[verifier::spinoff_prover]
fn substitute(template: &str, args: &Vec<String>) -> (r: String)
    ensures
        r@ == spec_subst(template@, args.deep_view(), 0),
{
    let tv = str_chars(template);
    let n = tv.len();
    let args_len = args.len();
    let ghost gargs = args.deep_view();
    let mut out = String::new();
    let mut i: usize = 0;
    let mut cursor: usize = 0;
    proof {
        assert(gargs.len() == args@.len());
        assert(tv@.skip(0) =~= tv@);
        assert(out@ + spec_subst(tv@, gargs, 0) =~= spec_subst(tv@, gargs, 0));
    }
    while i < n
        invariant
            i <= n,
            cursor <= i,
            n == tv@.len(),
            tv@ == template@,
            gargs == args.deep_view(),
            args_len == args@.len(),
            gargs.len() == args_len,
            out@ + spec_subst(tv@.skip(i as int), gargs, cursor as int) == spec_subst(
                tv@,
                gargs,
                0,
            ),
        decreases n - i,
    {
        let ghost pre = tv@.skip(i as int);
        let c = tv[i];
        if c != '%' {
            push_char(&mut out, c);
            i = i + 1;
            proof {
                assert(pre.skip(1) =~= tv@.skip(i as int));
                assert(out@ + spec_subst(tv@.skip(i as int), gargs, cursor as int) =~= spec_subst(
                    tv@,
                    gargs,
                    0,
                ));
            }
        } else {
            // measure the digit run after the '%'
            let mut k: usize = 0;
            while i + 1 + k < n && is_digit_char(tv[i + 1 + k])
                invariant
                    i + 1 + k <= n,
                    i < n,
                    n == tv@.len(),
                    forall|j: int| 0 <= j < k ==> spec_is_digit(#[trigger] tv@[i + 1 + j]),
                decreases n - (i + 1 + k),
            {
                k = k + 1;
            }
            proof {
                assert(pre.skip(1) =~= tv@.skip(i + 1));
                assert forall|j: int| 0 <= j < k implies spec_is_digit(
                    #[trigger] pre.skip(1)[j],
                ) by {
                    assert(pre.skip(1)[j] == tv@[i + 1 + j]);
                }
                if i + 1 + (k as int) < n {
                    assert(pre.skip(1)[k as int] == tv@[i + 1 + k]);
                }
                lemma_digit_run_count(pre.skip(1), k as int);
                assert(spec_digit_run(pre.skip(1)) == k);
            }
            let explicit = k > 0 && i + 1 + k < n && tv[i + 1 + k] == '$';
            let p = if explicit {
                i + 2 + k
            } else {
                i + 1
            };
            proof {
                assert(pre.len() == n - i);
                if k > 0 && 1 + (k as int) < pre.len() {
                    assert(pre[1 + k as int] == tv@[i + 1 + k]);
                }
            }
            if p == n {
                i = n;
                proof {
                    assert(spec_subst(pre, gargs, cursor as int) =~= Seq::<char>::empty());
                    assert(tv@.skip(n as int).len() == 0);
                    assert(out@ + spec_subst(tv@.skip(i as int), gargs, cursor as int)
                        =~= spec_subst(tv@, gargs, 0));
                }
            } else {
                let ghost p_rel = p - i;
                proof {
                    assert(pre[p_rel] == tv@[p as int]);
                    assert(pre.skip(p_rel + 1) =~= tv@.skip(p + 1));
                }
                let code = tv[p];
                if code == '%' {
                    push_char(&mut out, '%');
                    push_char(&mut out, '%');
                    i = p + 1;
                    proof {
                        assert(out@ + spec_subst(tv@.skip(i as int), gargs, cursor as int)
                            =~= spec_subst(tv@, gargs, 0));
                    }
                } else if code == 's' {
                    if explicit {
                        let ghost ds = pre.subrange(1, 1 + k as int);
                        proof {
                            assert(ds =~= tv@.subrange(i + 1, i + 1 + k));
                            assert forall|j: int| 0 <= j < ds.len() implies spec_is_digit(
                                #[trigger] ds[j],
                            ) by {
                                assert(ds[j] == tv@[i + 1 + j]);
                            }
                        }
                        let idx = digit_run_value(&tv, i + 1, k, args_len);
                        match idx {
                            Some(v) => {
                                if v >= 1 {
                                    out.append(args[v - 1].as_str());
                                    proof {
                                        assert(gargs[v - 1] == args@[v - 1]@);
                                    }
                                }
                            },
                            None => {},
                        }
                        i = p + 1;
                        proof {
                            lemma_digits_val_nonneg(ds);
                            assert(out@ + spec_subst(tv@.skip(i as int), gargs, cursor as int)
                                =~= spec_subst(tv@, gargs, 0));
                        }
                    } else {
                        if cursor < args_len {
                            out.append(args[cursor].as_str());
                            proof {
                                assert(gargs[cursor as int] == args@[cursor as int]@);
                            }
                        }
                        cursor = cursor + 1;
                        i = p + 1;
                        proof {
                            assert(out@ + spec_subst(tv@.skip(i as int), gargs, cursor as int)
                                =~= spec_subst(tv@, gargs, 0));
                        }
                    }
                } else if is_letter_char(code) {
                    i = p + 1;
                    proof {
                        assert(out@ + spec_subst(tv@.skip(i as int), gargs, cursor as int)
                            =~= spec_subst(tv@, gargs, 0));
                    }
                } else {
                    push_char(&mut out, '%');
                    i = i + 1;
                    proof {
                        assert(pre.skip(1) =~= tv@.skip(i as int));
                        assert(out@ + spec_subst(tv@.skip(i as int), gargs, cursor as int)
                            =~= spec_subst(tv@, gargs, 0));
                    }
                }
            }
        }
    }
    proof {
        assert(tv@.skip(n as int).len() == 0);
        assert(out@ =~= spec_subst(tv@, gargs, 0));
    }
    out
}

/// Reads the value of the digit run `chars[start .. start + k]`, comparing
/// it against `bound` without overflow: the value when it lies in
/// `1 ..= bound` is `Some`, anything larger (or zero only when `bound` is
/// zero) may collapse to `None`; exactly: `Some(v)` when the run's value
/// `v` satisfies `v <= bound`, else `None`.
fn digit_run_value(chars: &Vec<char>, start: usize, k: usize, bound: usize) -> (r: Option<usize>)
    requires
        start + k <= chars@.len(),
        forall|j: int| 0 <= j < k ==> spec_is_digit(#[trigger] chars@[start + j]),
    ensures
        ({
            let v = spec_digits_val(chars@.subrange(start as int, start + k));
            match r {
                Some(u) => u == v && v <= bound,
                None => v > bound,
            }
        }),
{
    let ghost ds = chars@.subrange(start as int, start + k);
    let total = chars.len();
    proof {
        assert(chars@.len() == total);
    }
    let mut val: usize = 0;
    let mut big = false;
    let mut j: usize = 0;
    proof {
        assert(ds.take(0) =~= Seq::<char>::empty());
    }
    while j < k
        invariant
            j <= k,
            start + k <= chars@.len(),
            total == chars@.len(),
            ds == chars@.subrange(start as int, start + k),
            ds.len() == k,
            forall|i: int| 0 <= i < k ==> spec_is_digit(#[trigger] chars@[start + i]),
            !big ==> val == spec_digits_val(ds.take(j as int)) && val <= bound,
            big ==> spec_digits_val(ds.take(j as int)) > bound,
        decreases k - j,
    {
        proof {
            assert(ds[j as int] == chars@[start + j]);
            assert(ds.take(j + 1).drop_last() =~= ds.take(j as int));
            assert(ds.take(j + 1).last() == ds[j as int]);
            assert(spec_digits_val(ds.take(j + 1)) == spec_digits_val(ds.take(j as int)) * 10
                + spec_digit_val(ds[j as int]));
        }
        let d = digit_val_char(chars[start + j]) as usize;
        if big {
            proof {
                assert forall|i: int| 0 <= i < ds.len() implies spec_is_digit(
                    #[trigger] ds[i],
                ) by {
                    assert(ds[i] == chars@[start + i]);
                }
                lemma_digits_val_nonneg(ds.take(j as int));
            }
        } else if val > bound / 10 {
            big = true;
            proof {
                assert(bound == 10 * (bound / 10) + bound % 10);
                assert(10 * val + d > bound);
            }
        } else {
            proof {
                assert(bound == 10 * (bound / 10) + bound % 10);
                assert(10 * val <= bound);
            }
            let m = 10 * val;
            if d > bound - m {
                big = true;
            } else {
                val = m + d;
            }
        }
        j = j + 1;
    }
    proof {
        assert(ds.take(k as int) =~= ds);
    }
    if big {
        None
    } else {
        Some(val)
    }
}

} // verus!
