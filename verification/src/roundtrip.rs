//! The parse/render round trip: rendering is idempotent after one full
//! parse-and-render cycle, because rendering canonicalizes escape codes
//! into a fixed emission order.

use vstd::prelude::*;

use crate::chat::{
    spec_default_component, spec_flush, spec_initial_style, spec_legacy_component, spec_parse,
    spec_parse_runs, spec_prefix, spec_render_component, spec_render_components,
    spec_render_content, spec_run_component, spec_runs_component, spec_runs_components,
    spec_style_with_color, spec_style_with_format, ContentV, RunV, StyleV,
};
use crate::formatting::{
    lemma_color_code_bijection, spec_color_code, spec_color_of_code, spec_format_code,
    spec_format_of_code, ChatColor, ChatFormat,
};
use crate::spec_marker;

verus! {

/// One full cycle: parse a legacy string and render the tree back.
pub open spec fn spec_cycle(s: Seq<char>, table: Seq<(Seq<char>, Seq<char>)>) -> Seq<char> {
    spec_render_component(spec_legacy_component(s), table)
}

/// The formatting prefix a parsed style renders to.
pub open spec fn spec_style_prefix(st: StyleV) -> Seq<char> {
    (match st.color {
        Some(col) => match spec_color_code(col) {
            Some(ch) => seq![spec_marker(), ch],
            None => Seq::<char>::empty(),
        },
        None => Seq::<char>::empty(),
    }) + (if st.bold {
        seq![spec_marker(), 'l']
    } else {
        Seq::<char>::empty()
    }) + (if st.italic {
        seq![spec_marker(), 'o']
    } else {
        Seq::<char>::empty()
    }) + (if st.strikethrough {
        seq![spec_marker(), 'm']
    } else {
        Seq::<char>::empty()
    }) + (if st.underlined {
        seq![spec_marker(), 'n']
    } else {
        Seq::<char>::empty()
    }) + (if st.obfuscated {
        seq![spec_marker(), 'k']
    } else {
        Seq::<char>::empty()
    })
}

/// What one parsed run renders to: its prefix, its text, and the reset.
pub open spec fn spec_run_render(r: RunV) -> Seq<char> {
    spec_style_prefix(r.style) + r.text + seq![spec_marker(), 'r']
}

/// What a run sequence renders to, run by run.
pub open spec fn spec_runs_render(runs: Seq<RunV>) -> Seq<char>
    decreases runs,
{
    if runs.len() == 0 {
        Seq::<char>::empty()
    } else {
        spec_run_render(runs[0]) + spec_runs_render(runs.drop_first())
    }
}

/// What the assembled tree of a run sequence renders to: the bare reset of
/// the default node when there are no runs, else the runs in order.
pub open spec fn spec_full_render(runs: Seq<RunV>) -> Seq<char> {
    if runs.len() == 0 {
        seq![spec_marker(), 'r']
    } else {
        spec_runs_render(runs)
    }
}

/// A parsed run as the parser itself produces it: nonempty marker-free
/// text, and a color that has a legacy code when present.
pub open spec fn wf_run(r: RunV) -> bool {
    &&& r.text.len() > 0
    &&& forall|i: int| 0 <= i < r.text.len() ==> r.text[i] != spec_marker()
    &&& match r.style.color {
        Some(c) => spec_color_code(c) is Some,
        None => true,
    }
}

/// Every run of the sequence is well formed.
pub open spec fn wf_runs(runs: Seq<RunV>) -> bool {
    forall|i: int| 0 <= i < runs.len() ==> wf_run(#[trigger] runs[i])
}

/// The first color of `a` and `b`: `a` when present, else `b`.
pub open spec fn or_color(a: Option<ChatColor>, b: Option<ChatColor>) -> Option<ChatColor> {
    match a {
        Some(_) => a,
        None => b,
    }
}

/// What re-parsing rendered runs yields: each run keeps its text and
/// flags; a run without a color inherits the color active before it, which
/// is `reset` for every run after the first.
pub open spec fn spec_canon(runs: Seq<RunV>, col0: Option<ChatColor>) -> Seq<RunV>
    decreases runs,
{
    if runs.len() == 0 {
        Seq::<RunV>::empty()
    } else {
        seq![
            RunV {
                text: runs[0].text,
                style: StyleV { color: or_color(runs[0].style.color, col0), ..runs[0].style },
            },
        ] + spec_canon(runs.drop_first(), Some(ChatColor::Reset))
    }
}

/// A style with no flags set.
pub open spec fn flagless(st: StyleV) -> bool {
    !st.bold && !st.italic && !st.underlined && !st.strikethrough && !st.obfuscated
}

/// Parsing marker-free text just accumulates it onto the pending run.
proof fn lemma_parse_text(t: Seq<char>, rest: Seq<char>, pending: Seq<char>, st: StyleV)
    requires
        forall|i: int| 0 <= i < t.len() ==> t[i] != spec_marker(),
    ensures
        spec_parse_runs(t + rest, pending, st) == spec_parse_runs(rest, pending + t, st),
    decreases t.len(),
{
    if t.len() == 0 {
        assert(t + rest =~= rest);
        assert(pending + t =~= pending);
    } else {
        assert((t + rest)[0] == t[0]);
        assert((t + rest).skip(1) =~= t.skip(1) + rest);
        lemma_parse_text(t.skip(1), rest, pending.push(t[0]), st);
        assert(pending.push(t[0]) + t.skip(1) =~= pending + t);
    }
}

/// Parsing a flag escape flushes the pending text and accumulates the flag.
proof fn lemma_parse_format_code(f: ChatFormat, rest: Seq<char>, pending: Seq<char>, st: StyleV)
    ensures
        spec_parse_runs(seq![spec_marker(), spec_format_code(f)] + rest, pending, st)
            == spec_flush(pending, st) + spec_parse_runs(
            rest,
            Seq::<char>::empty(),
            spec_style_with_format(st, f),
        ),
{
    let s = seq![spec_marker(), spec_format_code(f)] + rest;
    assert(s.len() >= 2);
    assert(s[0] == spec_marker());
    assert(s[1] == spec_format_code(f));
    assert(spec_format_of_code(spec_format_code(f)) == Some(f));
    assert(s.skip(2) =~= rest);
}

/// Parsing a color escape flushes the pending text, replaces the color and
/// clears the flags.
proof fn lemma_parse_color_code(c: ChatColor, rest: Seq<char>, pending: Seq<char>, st: StyleV)
    requires
        spec_color_code(c) is Some,
    ensures
        spec_parse_runs(seq![spec_marker(), spec_color_code(c).unwrap()] + rest, pending, st)
            == spec_flush(pending, st) + spec_parse_runs(
            rest,
            Seq::<char>::empty(),
            spec_style_with_color(c),
        ),
{
    let ch = spec_color_code(c).unwrap();
    let s = seq![spec_marker(), ch] + rest;
    assert(s.len() >= 2);
    assert(s[0] == spec_marker());
    assert(s[1] == ch);
    assert(spec_format_of_code(ch) is None);
    lemma_color_code_bijection();
    assert(spec_color_of_code(ch) == Some(c));
    assert(s.skip(2) =~= rest);
}

/// Parsing a rendered formatting prefix from a flagless state leaves the
/// pending text empty and reconstructs exactly the prefix's style, the
/// color falling back to the state's when the prefix carries none.
#[verifier::rlimit(80)]
#[verifier::spinoff_prover]
proof fn lemma_parse_style_prefix(st: StyleV, rest: Seq<char>, st0: StyleV)
    requires
        flagless(st0),
        match st.color {
            Some(c) => spec_color_code(c) is Some,
            None => true,
        },
    ensures
        spec_parse_runs(spec_style_prefix(st) + rest, Seq::<char>::empty(), st0)
            == spec_parse_runs(
            rest,
            Seq::<char>::empty(),
            StyleV { color: or_color(st.color, st0.color), ..st },
        ),
{
    let m = spec_marker();
    let e = Seq::<char>::empty();
    let cp: Seq<char> = match st.color {
        Some(col) => match spec_color_code(col) {
            Some(ch) => seq![m, ch],
            None => e,
        },
        None => e,
    };
    let p2: Seq<char> = if st.bold {
        seq![m, 'l']
    } else {
        e
    };
    let p3: Seq<char> = if st.italic {
        seq![m, 'o']
    } else {
        e
    };
    let p4: Seq<char> = if st.strikethrough {
        seq![m, 'm']
    } else {
        e
    };
    let p5: Seq<char> = if st.underlined {
        seq![m, 'n']
    } else {
        e
    };
    let p6: Seq<char> = if st.obfuscated {
        seq![m, 'k']
    } else {
        e
    };
    let r6 = rest;
    let r5 = p6 + r6;
    let r4 = p5 + r5;
    let r3 = p4 + r4;
    let r2 = p3 + r3;
    let r1 = p2 + r2;
    assert(spec_style_prefix(st) + rest =~= cp + r1);
    // the color escape, when the style has one
    let s1 = StyleV { color: or_color(st.color, st0.color), ..st0 };
    assert(spec_parse_runs(cp + r1, e, st0) == spec_parse_runs(r1, e, s1)) by {
        match st.color {
            Some(col) => {
                lemma_parse_color_code(col, r1, e, st0);
                assert(spec_flush(e, st0) + spec_parse_runs(r1, e, spec_style_with_color(col))
                    =~= spec_parse_runs(r1, e, spec_style_with_color(col)));
                assert(spec_style_with_color(col) == s1);
            },
            None => {
                assert(cp + r1 =~= r1);
                assert(st0 == s1);
            },
        }
    }
    // the five flag escapes, in emission order
    let s2 = if st.bold {
        spec_style_with_format(s1, ChatFormat::Bold)
    } else {
        s1
    };
    assert(spec_parse_runs(r1, e, s1) == spec_parse_runs(r2, e, s2)) by {
        if st.bold {
            lemma_parse_format_code(ChatFormat::Bold, r2, e, s1);
            assert(spec_flush(e, s1) + spec_parse_runs(r2, e, s2) =~= spec_parse_runs(r2, e, s2));
            assert(seq![m, spec_format_code(ChatFormat::Bold)] + r2 =~= r1);
        } else {
            assert(r1 =~= r2);
        }
    }
    let s3 = if st.italic {
        spec_style_with_format(s2, ChatFormat::Italic)
    } else {
        s2
    };
    assert(spec_parse_runs(r2, e, s2) == spec_parse_runs(r3, e, s3)) by {
        if st.italic {
            lemma_parse_format_code(ChatFormat::Italic, r3, e, s2);
            assert(spec_flush(e, s2) + spec_parse_runs(r3, e, s3) =~= spec_parse_runs(r3, e, s3));
            assert(seq![m, spec_format_code(ChatFormat::Italic)] + r3 =~= r2);
        } else {
            assert(r2 =~= r3);
        }
    }
    let s4 = if st.strikethrough {
        spec_style_with_format(s3, ChatFormat::Strikethrough)
    } else {
        s3
    };
    assert(spec_parse_runs(r3, e, s3) == spec_parse_runs(r4, e, s4)) by {
        if st.strikethrough {
            lemma_parse_format_code(ChatFormat::Strikethrough, r4, e, s3);
            assert(spec_flush(e, s3) + spec_parse_runs(r4, e, s4) =~= spec_parse_runs(r4, e, s4));
            assert(seq![m, spec_format_code(ChatFormat::Strikethrough)] + r4 =~= r3);
        } else {
            assert(r3 =~= r4);
        }
    }
    let s5 = if st.underlined {
        spec_style_with_format(s4, ChatFormat::Underlined)
    } else {
        s4
    };
    assert(spec_parse_runs(r4, e, s4) == spec_parse_runs(r5, e, s5)) by {
        if st.underlined {
            lemma_parse_format_code(ChatFormat::Underlined, r5, e, s4);
            assert(spec_flush(e, s4) + spec_parse_runs(r5, e, s5) =~= spec_parse_runs(r5, e, s5));
            assert(seq![m, spec_format_code(ChatFormat::Underlined)] + r5 =~= r4);
        } else {
            assert(r4 =~= r5);
        }
    }
    let s6 = if st.obfuscated {
        spec_style_with_format(s5, ChatFormat::Obfuscated)
    } else {
        s5
    };
    assert(spec_parse_runs(r5, e, s5) == spec_parse_runs(r6, e, s6)) by {
        if st.obfuscated {
            lemma_parse_format_code(ChatFormat::Obfuscated, r6, e, s5);
            assert(spec_flush(e, s5) + spec_parse_runs(r6, e, s6) =~= spec_parse_runs(r6, e, s6));
            assert(seq![m, spec_format_code(ChatFormat::Obfuscated)] + r6 =~= r5);
        } else {
            assert(r5 =~= r6);
        }
    }
    assert(s6 == StyleV { color: or_color(st.color, st0.color), ..st });
}

/// Parsing one rendered run from a flagless state emits exactly that run,
/// its color inherited when it had none, and leaves the reset state.
proof fn lemma_parse_run(r: RunV, rest: Seq<char>, st0: StyleV)
    requires
        wf_run(r),
        flagless(st0),
    ensures
        spec_parse_runs(spec_run_render(r) + rest, Seq::<char>::empty(), st0) == seq![
            RunV {
                text: r.text,
                style: StyleV { color: or_color(r.style.color, st0.color), ..r.style },
            },
        ] + spec_parse_runs(rest, Seq::<char>::empty(), spec_style_with_color(ChatColor::Reset)),
{
    let e = Seq::<char>::empty();
    let m = spec_marker();
    let tail = seq![m, 'r'] + rest;
    assert(spec_run_render(r) + rest =~= spec_style_prefix(r.style) + (r.text + tail));
    lemma_parse_style_prefix(r.style, r.text + tail, st0);
    let st1 = StyleV { color: or_color(r.style.color, st0.color), ..r.style };
    lemma_parse_text(r.text, tail, e, st1);
    assert(e + r.text =~= r.text);
    assert(spec_color_code(ChatColor::Reset) == Some('r'));
    lemma_parse_color_code(ChatColor::Reset, rest, r.text, st1);
    assert(seq![m, 'r'] + rest =~= tail);
    assert(spec_flush(r.text, st1) == seq![RunV { text: r.text, style: st1 }]);
}

/// Parsing the full rendering of a well-formed run sequence from a
/// flagless state yields its canonical form.
proof fn lemma_parse_rendered_runs(runs: Seq<RunV>, st0: StyleV)
    requires
        wf_runs(runs),
        flagless(st0),
    ensures
        spec_parse_runs(spec_runs_render(runs), Seq::<char>::empty(), st0) == spec_canon(
            runs,
            st0.color,
        ),
    decreases runs,
{
    let e = Seq::<char>::empty();
    if runs.len() == 0 {
        assert(spec_parse_runs(e, e, st0) == spec_flush(e, st0));
    } else {
        assert(wf_run(runs[0]));
        assert(wf_runs(runs.drop_first())) by {
            assert(forall|i: int|
                0 <= i < runs.drop_first().len() ==> #[trigger] runs.drop_first()[i] == runs[i
                    + 1]);
        }
        lemma_parse_run(runs[0], spec_runs_render(runs.drop_first()), st0);
        lemma_parse_rendered_runs(runs.drop_first(), spec_style_with_color(ChatColor::Reset));
    }
}

/// The canonical form is itself well formed.
proof fn lemma_canon_wf(runs: Seq<RunV>, col0: Option<ChatColor>)
    requires
        wf_runs(runs),
        match col0 {
            Some(c) => spec_color_code(c) is Some,
            None => true,
        },
    ensures
        wf_runs(spec_canon(runs, col0)),
        spec_canon(runs, col0).len() == runs.len(),
    decreases runs,
{
    if runs.len() > 0 {
        assert(wf_runs(runs.drop_first())) by {
            assert(forall|i: int|
                0 <= i < runs.drop_first().len() ==> #[trigger] runs.drop_first()[i] == runs[i
                    + 1]);
        }
        lemma_canon_wf(runs.drop_first(), Some(ChatColor::Reset));
        let c = spec_canon(runs, col0);
        let crest = spec_canon(runs.drop_first(), Some(ChatColor::Reset));
        assert(wf_run(c[0]));
        assert(forall|i: int| 1 <= i < c.len() ==> #[trigger] c[i] == crest[i - 1]);
    }
}

/// Canonicalizing twice with the same seed changes nothing more.
proof fn lemma_canon_idempotent(runs: Seq<RunV>, col0: Option<ChatColor>)
    ensures
        spec_canon(spec_canon(runs, col0), col0) == spec_canon(runs, col0),
    decreases runs,
{
    if runs.len() > 0 {
        lemma_canon_idempotent(runs.drop_first(), Some(ChatColor::Reset));
        let c = spec_canon(runs, col0);
        assert(c.drop_first() =~= spec_canon(runs.drop_first(), Some(ChatColor::Reset)));
        assert(spec_canon(c, col0) =~= spec_canon(runs, col0));
    }
}

/// Every run the parser emits is well formed.
proof fn lemma_parse_wf(s: Seq<char>, pending: Seq<char>, st: StyleV)
    requires
        forall|i: int| 0 <= i < pending.len() ==> pending[i] != spec_marker(),
        match st.color {
            Some(c) => spec_color_code(c) is Some,
            None => true,
        },
    ensures
        wf_runs(spec_parse_runs(s, pending, st)),
    decreases s.len(),
{
    lemma_color_code_bijection();
    if s.len() == 0 {
    } else if s[0] == spec_marker() {
        if s.len() == 1 {
        } else {
            match spec_format_of_code(s[1]) {
                Some(f) => {
                    lemma_parse_wf(s.skip(2), Seq::<char>::empty(), spec_style_with_format(st, f));
                    lemma_flush_concat_wf(pending, st, spec_parse_runs(
                        s.skip(2),
                        Seq::<char>::empty(),
                        spec_style_with_format(st, f),
                    ));
                },
                None => match spec_color_of_code(s[1]) {
                    Some(col) => {
                        lemma_parse_wf(s.skip(2), Seq::<char>::empty(), spec_style_with_color(col));
                        lemma_flush_concat_wf(pending, st, spec_parse_runs(
                            s.skip(2),
                            Seq::<char>::empty(),
                            spec_style_with_color(col),
                        ));
                    },
                    None => {
                        lemma_parse_wf(s.skip(2), pending, st);
                    },
                },
            }
        }
    } else {
        lemma_parse_wf(s.skip(1), pending.push(s[0]), st);
    }
}

/// A flush prepended to well-formed runs stays well formed.
proof fn lemma_flush_concat_wf(pending: Seq<char>, st: StyleV, rest: Seq<RunV>)
    requires
        forall|i: int| 0 <= i < pending.len() ==> pending[i] != spec_marker(),
        match st.color {
            Some(c) => spec_color_code(c) is Some,
            None => true,
        },
        wf_runs(rest),
    ensures
        wf_runs(spec_flush(pending, st) + rest),
{
    let whole = spec_flush(pending, st) + rest;
    assert forall|i: int| 0 <= i < whole.len() implies wf_run(#[trigger] whole[i]) by {
        if pending.len() > 0 {
            if i == 0 {
                assert(whole[0] == RunV { text: pending, style: st });
            } else {
                assert(whole[i] == rest[i - 1]);
            }
        } else {
            assert(whole[i] == rest[i]);
        }
    }
}

/// The assembled tree of a run sequence renders to the runs in order, or
/// to the bare reset when there are none.
proof fn lemma_render_assembled(runs: Seq<RunV>, table: Seq<(Seq<char>, Seq<char>)>)
    ensures
        spec_render_component(spec_runs_component(runs), table) == spec_full_render(runs),
{
    let m = spec_marker();
    if runs.len() == 0 {
        let d = spec_default_component();
        assert(spec_prefix(d) =~= Seq::<char>::empty());
        assert(spec_render_content(d.content, spec_prefix(d), table) =~= Seq::<char>::empty());
        assert(spec_render_component(d, table) =~= seq![m, 'r']);
    } else {
        let root = spec_runs_component(runs);
        assert(spec_prefix(root) =~= spec_style_prefix(runs[0].style));
        assert(spec_render_content(root.content, spec_prefix(root), table) == runs[0].text);
        lemma_render_run_components(runs.drop_first(), table);
        assert(root.extra == spec_runs_components(runs.drop_first()));
        assert(spec_render_component(root, table) =~= spec_run_render(runs[0])
            + spec_runs_render(runs.drop_first()));
        assert(spec_runs_render(runs) == spec_run_render(runs[0]) + spec_runs_render(
            runs.drop_first(),
        ));
    }
}

/// The children built from runs render to those runs in order.
proof fn lemma_render_run_components(runs: Seq<RunV>, table: Seq<(Seq<char>, Seq<char>)>)
    ensures
        spec_render_components(spec_runs_components(runs), table) == spec_runs_render(runs),
    decreases runs,
{
    if runs.len() == 0 {
        assert(spec_runs_components(runs) =~= Seq::<crate::chat::ComponentV>::empty());
    } else {
        let comps = spec_runs_components(runs);
        assert(comps.len() == runs.len());
        assert(comps[0] == spec_run_component(runs[0]));
        assert(comps.drop_first() =~= spec_runs_components(runs.drop_first()));
        lemma_render_run_components(runs.drop_first(), table);
        let c0 = spec_run_component(runs[0]);
        assert(spec_prefix(c0) =~= spec_style_prefix(runs[0].style));
        assert(spec_render_content(c0.content, spec_prefix(c0), table) == runs[0].text);
        assert(spec_render_components(c0.extra, table) =~= Seq::<char>::empty());
        assert(spec_render_component(c0, table) =~= spec_run_render(runs[0]));
    }
}

/// After one full parse-and-render cycle, the cycle is a fixed point:
/// parsing the rendered string and rendering again reproduces it exactly,
/// for every input string and every translation table.
pub proof fn lemma_render_parse_fixed_point(s: Seq<char>, table: Seq<(Seq<char>, Seq<char>)>)
    ensures
        spec_cycle(spec_cycle(spec_cycle(s, table), table), table) == spec_cycle(
            spec_cycle(s, table),
            table,
        ),
{
    let e = Seq::<char>::empty();
    let runs = spec_parse(s);
    assert(forall|i: int| 0 <= i < e.len() ==> e[i] != spec_marker());
    lemma_parse_wf(s, e, spec_initial_style());
    lemma_render_assembled(runs, table);
    assert(spec_cycle(s, table) == spec_full_render(runs));
    let runs1 = spec_parse(spec_cycle(s, table));
    lemma_parse_cycle(runs, table);
    assert(runs1 == spec_canon(runs, None));
    lemma_canon_wf(runs, None);
    lemma_render_assembled(runs1, table);
    assert(spec_cycle(spec_cycle(s, table), table) == spec_full_render(runs1));
    let runs2 = spec_parse(spec_cycle(spec_cycle(s, table), table));
    lemma_parse_cycle(runs1, table);
    assert(runs2 == spec_canon(runs1, None));
    lemma_canon_idempotent(runs, None);
    assert(runs2 == runs1);
    lemma_render_assembled(runs2, table);
}

/// Parsing the full rendering of well-formed runs yields their canonical
/// form; without runs, the rendered bare reset parses back to no runs.
proof fn lemma_parse_cycle(runs: Seq<RunV>, table: Seq<(Seq<char>, Seq<char>)>)
    requires
        wf_runs(runs),
    ensures
        spec_parse(spec_full_render(runs)) == spec_canon(runs, None),
{
    let e = Seq::<char>::empty();
    let m = spec_marker();
    if runs.len() == 0 {
        let s = seq![m, 'r'];
        assert(s[0] == m);
        assert(s[1] == 'r');
        assert(spec_color_of_code('r') == Some(ChatColor::Reset));
        assert(spec_format_of_code('r') is None);
        assert(s.skip(2) =~= e);
        assert(spec_parse_runs(e, e, spec_style_with_color(ChatColor::Reset)) == spec_flush(
            e,
            spec_style_with_color(ChatColor::Reset),
        ));
        assert(spec_parse(s) == spec_flush(e, spec_initial_style()) + spec_parse_runs(
            e,
            e,
            spec_style_with_color(ChatColor::Reset),
        ));
        assert(spec_parse(s) =~= Seq::<RunV>::empty());
    } else {
        lemma_parse_rendered_runs(runs, spec_initial_style());
    }
}

} // verus!