//! Rich-text chat formatting: a structured component model, conversion to and
//! from flat "legacy" strings that carry styling as two-character escapes
//! (a marker followed by one code character), translation-key substitution,
//! and post-processing of legacy strings into ANSI-colored or plain text.

use vstd::prelude::*;

pub mod chat;
pub mod error;
pub mod formatting;
pub mod roundtrip;
mod text;
pub mod translator;

verus! {

/// The escape marker that introduces a two-character styling code in a
/// legacy string (the "section sign").
pub open spec fn spec_marker() -> char {
    '\u{a7}'
}

/// The ANSI rendering of a legacy string: ordinary characters are copied;
/// a marker consumes the following character, which becomes the matching
/// terminal escape for a color or flag code and is copied bare otherwise.
/// A trailing lone marker is dropped.
pub open spec fn spec_legacy_ansi(s: Seq<char>) -> Seq<char>
    decreases s.len(),
{
    if s.len() == 0 {
        Seq::<char>::empty()
    } else if s[0] == spec_marker() {
        if s.len() == 1 {
            Seq::<char>::empty()
        } else {
            (match formatting::spec_color_of_code(s[1]) {
                Some(col) => formatting::spec_color_ansi(col, true),
                None => match formatting::spec_format_of_code(s[1]) {
                    Some(f) => formatting::spec_format_ansi(f),
                    None => seq![s[1]],
                },
            }) + spec_legacy_ansi(s.skip(2))
        }
    } else {
        seq![s[0]] + spec_legacy_ansi(s.skip(1))
    }
}

/// The style-stripped rendering of a legacy string: every marker and the
/// character after it are dropped, recognized or not; everything else is
/// copied.
pub open spec fn spec_legacy_plain(s: Seq<char>) -> Seq<char>
    decreases s.len(),
{
    if s.len() == 0 {
        Seq::<char>::empty()
    } else if s[0] == spec_marker() {
        if s.len() == 1 {
            Seq::<char>::empty()
        } else {
            spec_legacy_plain(s.skip(2))
        }
    } else {
        seq![s[0]] + spec_legacy_plain(s.skip(1))
    }
}

/// A style-stripped legacy string holds no marker characters: every marker
/// of the input is consumed together with the character after it.
pub proof fn lemma_plain_no_marker(s: Seq<char>)
    ensures
        forall|i: int|
            0 <= i < spec_legacy_plain(s).len() ==> spec_legacy_plain(s)[i] != spec_marker(),
    decreases s.len(),
{
    if s.len() == 0 {
        assert(spec_legacy_plain(s).len() == 0);
    } else if s[0] == spec_marker() {
        if s.len() == 1 {
            assert(spec_legacy_plain(s).len() == 0);
        } else {
            lemma_plain_no_marker(s.skip(2));
            assert(spec_legacy_plain(s) == spec_legacy_plain(s.skip(2)));
        }
    } else {
        lemma_plain_no_marker(s.skip(1));
        assert(spec_legacy_plain(s) == seq![s[0]] + spec_legacy_plain(s.skip(1)));
        assert forall|i: int|
            0 <= i < spec_legacy_plain(s).len() implies spec_legacy_plain(s)[i]
            != spec_marker() by {
            if i > 0 {
                assert(spec_legacy_plain(s)[i] == spec_legacy_plain(s.skip(1))[i - 1]);
            } else {
                assert(spec_legacy_plain(s)[0] == s[0]);
            }
        }
    }
}

/// Converts an already-rendered legacy string into terminal output, turning
/// each recognized two-character escape into the matching ANSI escape.
pub fn legacy_to_ansi(input: &str) -> (r: String)
    ensures
        r@ == spec_legacy_ansi(input@),
{
    let chars = text::str_chars(input);
    let n = chars.len();
    let mut out = String::new();
    let mut i: usize = 0;
    proof {
        assert(input@.skip(0) =~= input@);
        assert(out@ + spec_legacy_ansi(input@) =~= spec_legacy_ansi(input@));
    }
    while i < n
        invariant
            i <= n,
            n == input@.len(),
            chars@ == input@,
            out@ + spec_legacy_ansi(input@.skip(i as int)) == spec_legacy_ansi(input@),
        decreases n - i,
    {
        let ghost pre = input@.skip(i as int);
        let c = chars[i];
        if c == '\u{a7}' {
            if i + 1 < n {
                let code = chars[i + 1];
                match formatting::ChatColor::from_color_code_char(code) {
                    Ok(color) => {
                        let esc = color.into_ansi_escape_code(true);
                        out.append(esc.as_str());
                    },
                    Err(_) => {
                        match formatting::ChatFormat::from_format_code_char(code) {
                            Ok(format) => {
                                let esc = format.into_ansi_escape_code();
                                out.append(esc.as_str());
                            },
                            Err(_) => {
                                text::push_char(&mut out, code);
                            },
                        }
                    },
                }
                i = i + 2;
            } else {
                i = i + 1;
            }
        } else {
            text::push_char(&mut out, c);
            i = i + 1;
        }
        proof {
            assert(pre.len() >= 1 && pre[0] == c);
            if c == spec_marker() && pre.len() >= 2 {
                assert(pre[1] == input@[i - 1 as int]);
                assert(pre.skip(2) =~= input@.skip(i as int));
            } else if c == spec_marker() {
                assert(input@.skip(i as int).len() == 0);
            } else {
                assert(pre.skip(1) =~= input@.skip(i as int));
            }
            assert(out@ + spec_legacy_ansi(input@.skip(i as int)) =~= spec_legacy_ansi(input@));
        }
    }
    proof {
        assert(input@.skip(n as int) =~= Seq::<char>::empty());
        assert(out@ =~= spec_legacy_ansi(input@));
    }
    out
}

/// Strips every two-character escape from a legacy string, leaving the
/// plain text.
pub fn legacy_to_plain(input: &str) -> (r: String)
    ensures
        r@ == spec_legacy_plain(input@),
{
    let chars = text::str_chars(input);
    let n = chars.len();
    let mut out = String::new();
    let mut i: usize = 0;
    proof {
        assert(input@.skip(0) =~= input@);
        assert(out@ + spec_legacy_plain(input@) =~= spec_legacy_plain(input@));
    }
    while i < n
        invariant
            i <= n,
            n == input@.len(),
            chars@ == input@,
            out@ + spec_legacy_plain(input@.skip(i as int)) == spec_legacy_plain(input@),
        decreases n - i,
    {
        let ghost pre = input@.skip(i as int);
        let c = chars[i];
        if c == '\u{a7}' {
            if i + 1 < n {
                i = i + 2;
            } else {
                i = i + 1;
            }
        } else {
            text::push_char(&mut out, c);
            i = i + 1;
        }
        proof {
            assert(pre.len() >= 1 && pre[0] == c);
            if c == spec_marker() && pre.len() >= 2 {
                assert(pre.skip(2) =~= input@.skip(i as int));
            } else if c == spec_marker() {
                assert(input@.skip(i as int).len() == 0);
            } else {
                assert(pre.skip(1) =~= input@.skip(i as int));
            }
            assert(out@ + spec_legacy_plain(input@.skip(i as int)) =~= spec_legacy_plain(input@));
        }
    }
    proof {
        assert(input@.skip(n as int) =~= Seq::<char>::empty());
        assert(out@ =~= spec_legacy_plain(input@));
    }
    out
}

} // verus!
