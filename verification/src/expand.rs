//! The variable expander: one pass rewrites every non-overlapping `%key%`
//! span (the key is one or more characters, none of them `%`) through the
//! namespace resolver, leaving unresolved spans verbatim; the full expansion
//! repeats passes up to a fixed bound of five, stopping early at a fixed
//! point. The bound is a contract: a chain of indirections deeper than five
//! levels is deliberately left partly unexpanded.

use vstd::prelude::*;
use vstd::string::*;
use crate::config::Config;
use crate::namespace::{resolve_key, resolve_key_spec};
use crate::text::{find_char_exec, find_char_from, lemma_find_char_from};

verus! {

/// The number of expansion passes one call makes at most.
pub const EXPANSION_PASSES: u8 = 5;

/// One expansion pass over `s`, scanned left to right. At a `%` with a later
/// closing `%`: an empty span (`%%`) is no placeholder and the scan moves on
/// by one character; otherwise the key between the two `%` is resolved, its
/// value (or, unresolved, the span verbatim) is emitted, and the scan
/// continues after the span. A `%` with no later `%` ends the pass.
pub open spec fn expand_once_spec(s: Seq<char>, cfg: Config) -> Seq<char>
    decreases s.len(),
{
    if s.len() == 0 {
        s
    } else if s[0] != '%' {
        seq![s[0]] + expand_once_spec(s.drop_first(), cfg)
    } else {
        let found = find_char_from(s, '%', 1);
        if !(found is Some && 1 <= found->Some_0 < s.len()) {
            s
        } else {
            let j = found->Some_0;
            if j == 1 {
                seq!['%'] + expand_once_spec(s.skip(1), cfg)
            } else {
                match resolve_key_spec(s.subrange(1, j), cfg) {
                    Some(v) => v + expand_once_spec(s.skip(j + 1), cfg),
                    None => s.take(j + 1) + expand_once_spec(s.skip(j + 1), cfg),
                }
            }
        }
    }
}

/// Up to `n` expansion passes, stopping at the first fixed point.
pub open spec fn expand_passes(s: Seq<char>, cfg: Config, n: nat) -> Seq<char>
    decreases n,
{
    if n == 0 {
        s
    } else {
        let s2 = expand_once_spec(s, cfg);
        if s2 == s {
            s
        } else {
            expand_passes(s2, cfg, (n - 1) as nat)
        }
    }
}

/// One expansion pass over `text`.
pub fn expand_once(text: &str, cfg: &Config) -> (r: String)
    requires
        cfg.wf(),
    ensures
        r@ == expand_once_spec(text@, *cfg),
{
    let len = text.unicode_len();
    let mut out = String::new();
    let mut i: usize = 0;
    proof {
        assert(text@.skip(0) =~= text@);
        assert(out@ + text@ =~= text@);
    }
    while i < len
        invariant
            cfg.wf(),
            len == text@.len(),
            i <= len,
            expand_once_spec(text@, *cfg) == out@ + expand_once_spec(text@.skip(i as int), *cfg),
        decreases len - i,
    {
        let ghost t = text@.skip(i as int);
        let c = text.get_char(i);
        proof {
            assert(t[0] == c);
        }
        if c != '%' {
            let piece = text.substring_char(i, i + 1);
            out.append(piece);
            proof {
                assert(piece@ =~= seq![c]);
                assert(t.drop_first() =~= text@.skip(i + 1));
                assert(expand_once_spec(t, *cfg) == seq![c] + expand_once_spec(
                    text@.skip(i + 1),
                    *cfg,
                ));
            }
            i += 1;
        } else {
            match find_char_exec(text, '%', i + 1) {
                None => {
                    let piece = text.substring_char(i, len);
                    out.append(piece);
                    proof {
                        lemma_find_char_from(t, '%', 1);
                        if find_char_from(t, '%', 1) is Some {
                            let j = find_char_from(t, '%', 1)->Some_0;
                            assert(t[j] == '%');
                            assert(t[j] == text@[i + j]);
                        }
                        assert(expand_once_spec(t, *cfg) == t);
                        assert(piece@ =~= t);
                        assert(text@.skip(len as int) =~= Seq::<char>::empty());
                        assert(expand_once_spec(Seq::<char>::empty(), *cfg)
                            == Seq::<char>::empty());
                        assert(out@ + Seq::<char>::empty() =~= out@);
                    }
                    i = len;
                },
                Some(j) => {
                    proof {
                        lemma_find_char_from(t, '%', 1);
                        let g = j - i;
                        assert(t[g] == text@[j as int]);
                        assert(find_char_from(t, '%', 1) == Some(g)) by {
                            match find_char_from(t, '%', 1) {
                                Some(f) => {
                                    if f < g {
                                        assert(t[f] == text@[i + f]);
                                        assert(text@[i + f] != '%');
                                    }
                                    if f > g {
                                        assert(t[g] != '%');
                                    }
                                },
                                None => {
                                    assert(t[g] != '%');
                                },
                            }
                        }
                    }
                    if j == i + 1 {
                        let piece = text.substring_char(i, i + 1);
                        out.append(piece);
                        proof {
                            assert(piece@ =~= seq!['%']);
                            assert(t.skip(1) =~= text@.skip(i + 1));
                            assert(expand_once_spec(t, *cfg) == seq!['%'] + expand_once_spec(
                                text@.skip(i + 1),
                                *cfg,
                            ));
                        }
                        i += 1;
                    } else {
                        let key = text.substring_char(i + 1, j);
                        proof {
                            assert(key@ =~= t.subrange(1, j - i));
                        }
                        match resolve_key(key, cfg) {
                            Some(v) => {
                                out.append(v.as_str());
                                proof {
                                    assert(t.skip(j - i + 1) =~= text@.skip(j + 1));
                                    assert(expand_once_spec(t, *cfg) == v@ + expand_once_spec(
                                        text@.skip(j + 1),
                                        *cfg,
                                    ));
                                }
                            },
                            None => {
                                let piece = text.substring_char(i, j + 1);
                                out.append(piece);
                                proof {
                                    assert(piece@ =~= t.take(j - i + 1));
                                    assert(t.skip(j - i + 1) =~= text@.skip(j + 1));
                                    assert(expand_once_spec(t, *cfg) == t.take(j - i + 1)
                                        + expand_once_spec(text@.skip(j + 1), *cfg));
                                }
                            },
                        }
                        i = j + 1;
                    }
                },
            }
        }
    }
    proof {
        assert(text@.skip(len as int) =~= Seq::<char>::empty());
        assert(expand_once_spec(Seq::<char>::empty(), *cfg) == Seq::<char>::empty());
        assert(out@ + Seq::<char>::empty() =~= out@);
    }
    out
}

/// Expands every `%key%` placeholder in `text` against the configuration
/// namespace: up to five passes, so a resolved value may itself hold
/// placeholders and still be expanded, stopping early when a pass changes
/// nothing. Unresolved placeholders stay verbatim; the function never fails.
pub fn expand_text(text: &str, cfg: &Config) -> (r: String)
    requires
        cfg.wf(),
    ensures
        r@ == expand_passes(text@, *cfg, EXPANSION_PASSES as nat),
{
    let mut cur = text.to_owned();
    let mut pass: u8 = 0;
    while pass < EXPANSION_PASSES
        invariant
            cfg.wf(),
            pass <= EXPANSION_PASSES,
            expand_passes(text@, *cfg, EXPANSION_PASSES as nat) == expand_passes(
                cur@,
                *cfg,
                (EXPANSION_PASSES - pass) as nat,
            ),
        decreases EXPANSION_PASSES - pass,
    {
        let next = expand_once(cur.as_str(), cfg);
        if next == cur {
            return cur;
        }
        cur = next;
        pass += 1;
    }
    cur
}

} // verus!
