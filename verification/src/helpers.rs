//! Small helpers around the core: app-name sanitizing and boolean parsing for
//! configuration values.

use vstd::prelude::*;
use vstd::string::*;
use crate::text::{is_space, slash_pred, space_pred, str_eq, trim_spaces, trim_spec};

verus! {

/// One character of a raw app name, normalized: a blank becomes `_`, a
/// backslash becomes `/`, anything else stays.
pub open spec fn normal_char(c: char) -> char {
    if c == ' ' {
        '_'
    } else if c == '\\' {
        '/'
    } else {
        c
    }
}

/// A raw app name sanitized: surrounding blanks trimmed, spaces turned into
/// `_`, backslashes into `/`, and surrounding `/` trimmed.
pub open spec fn sanitize_spec(s: Seq<char>) -> Seq<char> {
    trim_spec(trim_spec(s, space_pred()).map_values(|c: char| normal_char(c)), slash_pred())
}

/// Sanitizes a raw app name into the form used as an app key and file stem.
pub fn sanitize_app_name(name: &str) -> (r: String)
    ensures
        r@ == sanitize_spec(name@),
{
    let trimmed = trim_spaces(name);
    let ghost tv = trimmed@;
    let len = trimmed.unicode_len();
    let mut replaced = String::new();
    let mut i: usize = 0;
    proof {
        assert(replaced@ =~= tv.take(0).map_values(|c: char| normal_char(c)));
    }
    while i < len
        invariant
            len == tv.len(),
            tv == trimmed@,
            i <= len,
            replaced@ == tv.take(i as int).map_values(|c: char| normal_char(c)),
        decreases len - i,
    {
        let c = trimmed.get_char(i);
        let ghost before = replaced@;
        if c == ' ' {
            replaced.append("_");
            proof {
                reveal_strlit("_");
                assert(replaced@ =~= before.push('_'));
            }
        } else if c == '\\' {
            replaced.append("/");
            proof {
                reveal_strlit("/");
                assert(replaced@ =~= before.push('/'));
            }
        } else {
            let piece = trimmed.substring_char(i, i + 1);
            replaced.append(piece);
            proof {
                assert(piece@ =~= seq![c]);
                assert(replaced@ =~= before.push(c));
            }
        }
        proof {
            assert(replaced@ =~= tv.take(i + 1).map_values(|c: char| normal_char(c)));
        }
        i += 1;
    }
    proof {
        assert(tv.take(len as int) =~= tv);
    }
    let r = crate::text::trim_slashes(replaced.as_str());
    r.to_owned()
}

/// The definition-file suffix recognized when the app index is built.
pub open spec fn toml_suffix() -> Seq<char> {
    ".toml"@
}

/// The app key a scanned definition file earns: the path relative to the app
/// directory with a trailing `.toml` removed, backslashes normalized to `/`,
/// and surrounding `/` trimmed.
pub open spec fn app_key_spec(rel: Seq<char>) -> Seq<char> {
    let stem = if rel.len() >= toml_suffix().len() && rel.skip(
        rel.len() - toml_suffix().len(),
    ) == toml_suffix() {
        rel.take(rel.len() - toml_suffix().len())
    } else {
        rel
    };
    trim_spec(stem.map_values(|c: char| if c == '\\' { '/' } else { c }), slash_pred())
}

/// Turns the path of a scanned definition file, relative to the app
/// directory, into the app's key in the index.
pub fn app_key_from_path(rel: &str) -> (r: String)
    ensures
        r@ == app_key_spec(rel@),
{
    let len = rel.unicode_len();
    let sfx = ".toml";
    let sfx_len = sfx.unicode_len();
    let stem: &str = if len >= sfx_len && str_eq(rel.substring_char(len - sfx_len, len), sfx) {
        rel.substring_char(0, len - sfx_len)
    } else {
        rel
    };
    proof {
        if len >= sfx_len && rel@.subrange(len - sfx_len, len as int) == toml_suffix() {
            assert(rel@.skip(len - sfx_len) =~= rel@.subrange(len - sfx_len, len as int));
            assert(stem@ == rel@.take(len - sfx_len));
        } else {
            if len >= sfx_len {
                assert(rel@.skip(len - sfx_len) =~= rel@.subrange(len - sfx_len, len as int));
            }
            assert(stem@ == rel@);
        }
    }
    let ghost sv = stem@;
    let slen = stem.unicode_len();
    let mut replaced = String::new();
    let mut i: usize = 0;
    proof {
        assert(replaced@ =~= sv.take(0).map_values(|c: char| if c == '\\' { '/' } else { c }));
    }
    while i < slen
        invariant
            slen == sv.len(),
            sv == stem@,
            i <= slen,
            replaced@ == sv.take(i as int).map_values(|c: char| if c == '\\' { '/' } else { c }),
        decreases slen - i,
    {
        let c = stem.get_char(i);
        let ghost before = replaced@;
        if c == '\\' {
            replaced.append("/");
            proof {
                reveal_strlit("/");
                assert(replaced@ =~= before.push('/'));
            }
        } else {
            let piece = stem.substring_char(i, i + 1);
            replaced.append(piece);
            proof {
                assert(piece@ =~= seq![c]);
                assert(replaced@ =~= before.push(c));
            }
        }
        proof {
            assert(replaced@ =~= sv.take(i + 1).map_values(
                |c: char| if c == '\\' { '/' } else { c },
            ));
        }
        i += 1;
    }
    proof {
        assert(sv.take(slen as int) =~= sv);
    }
    crate::text::trim_slashes(replaced.as_str()).to_owned()
}

/// An ASCII letter lowered; every other character is left as it is.
pub open spec fn lower_char(c: char) -> char {
    match c {
        'A' => 'a',
        'B' => 'b',
        'C' => 'c',
        'D' => 'd',
        'E' => 'e',
        'F' => 'f',
        'G' => 'g',
        'H' => 'h',
        'I' => 'i',
        'J' => 'j',
        'K' => 'k',
        'L' => 'l',
        'M' => 'm',
        'N' => 'n',
        'O' => 'o',
        'P' => 'p',
        'Q' => 'q',
        'R' => 'r',
        'S' => 's',
        'T' => 't',
        'U' => 'u',
        'V' => 'v',
        'W' => 'w',
        'X' => 'x',
        'Y' => 'y',
        'Z' => 'z',
        _ => c,
    }
}

/// A string with its ASCII letters lowered.
pub open spec fn lower_seq(s: Seq<char>) -> Seq<char> {
    s.map_values(|c: char| lower_char(c))
}

/// The boolean a configuration word denotes: after ASCII lowering and
/// trimming, the words `1`, `true`, `yes`, `y` and `on` mean true, and `0`,
/// `false`, `no`, `n` and `off` mean false; anything else denotes nothing.
pub open spec fn parse_bool_spec(s: Seq<char>) -> Option<bool> {
    let t = trim_spec(lower_seq(s), space_pred());
    if t == "1"@ || t == "true"@ || t == "yes"@ || t == "y"@ || t == "on"@ {
        Some(true)
    } else if t == "0"@ || t == "false"@ || t == "no"@ || t == "n"@ || t == "off"@ {
        Some(false)
    } else {
        None
    }
}

/// The lowered form of an ASCII capital letter, as text.
fn lower_ascii_str(c: char) -> (r: &'static str)
    requires
        'A' <= c && c <= 'Z',
    ensures
        r@ == seq![lower_char(c)],
{
    proof {
        reveal_strlit("a");
        reveal_strlit("b");
        reveal_strlit("c");
        reveal_strlit("d");
        reveal_strlit("e");
        reveal_strlit("f");
        reveal_strlit("g");
        reveal_strlit("h");
        reveal_strlit("i");
        reveal_strlit("j");
        reveal_strlit("k");
        reveal_strlit("l");
        reveal_strlit("m");
        reveal_strlit("n");
        reveal_strlit("o");
        reveal_strlit("p");
        reveal_strlit("q");
        reveal_strlit("r");
        reveal_strlit("s");
        reveal_strlit("t");
        reveal_strlit("u");
        reveal_strlit("v");
        reveal_strlit("w");
        reveal_strlit("x");
        reveal_strlit("y");
        reveal_strlit("z");
    }
    match c {
        'A' => "a",
        'B' => "b",
        'C' => "c",
        'D' => "d",
        'E' => "e",
        'F' => "f",
        'G' => "g",
        'H' => "h",
        'I' => "i",
        'J' => "j",
        'K' => "k",
        'L' => "l",
        'M' => "m",
        'N' => "n",
        'O' => "o",
        'P' => "p",
        'Q' => "q",
        'R' => "r",
        'S' => "s",
        'T' => "t",
        'U' => "u",
        'V' => "v",
        'W' => "w",
        'X' => "x",
        'Y' => "y",
        _ => "z",
    }
}

/// `s` with its ASCII letters lowered.
fn lower_exec(s: &str) -> (r: String)
    ensures
        r@ == lower_seq(s@),
{
    let len = s.unicode_len();
    let mut out = String::new();
    let mut i: usize = 0;
    proof {
        assert(out@ =~= s@.take(0).map_values(|c: char| lower_char(c)));
    }
    while i < len
        invariant
            len == s@.len(),
            i <= len,
            out@ == s@.take(i as int).map_values(|c: char| lower_char(c)),
        decreases len - i,
    {
        let c = s.get_char(i);
        let ghost before = out@;
        if 'A' <= c && c <= 'Z' {
            let piece = lower_ascii_str(c);
            out.append(piece);
            proof {
                assert(out@ =~= before.push(lower_char(c)));
            }
        } else {
            let piece = s.substring_char(i, i + 1);
            out.append(piece);
            proof {
                assert(piece@ =~= seq![c]);
                assert(lower_char(c) == c);
                assert(out@ =~= before.push(lower_char(c)));
            }
        }
        proof {
            assert(out@ =~= s@.take(i + 1).map_values(|c: char| lower_char(c)));
        }
        i += 1;
    }
    proof {
        assert(s@.take(len as int) =~= s@);
    }
    out
}

/// Reads a boolean from a configuration word, accepting the usual spellings
/// in any letter case.
pub fn parse_bool(s: &str) -> (r: Option<bool>)
    ensures
        r == parse_bool_spec(s@),
{
    let lowered = lower_exec(s);
    let t = trim_spaces(lowered.as_str());
    if str_eq(t, "1") || str_eq(t, "true") || str_eq(t, "yes") || str_eq(t, "y") || str_eq(
        t,
        "on",
    ) {
        Some(true)
    } else if str_eq(t, "0") || str_eq(t, "false") || str_eq(t, "no") || str_eq(t, "n") || str_eq(
        t,
        "off",
    ) {
        Some(false)
    } else {
        None
    }
}

} // verus!
