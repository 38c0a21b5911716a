use vstd::prelude::*;
use crate::text::{chars_to_string, push_str_chars, str_to_chars};

verus! {

pub open spec fn is_color_code(c: char) -> bool {
    ||| c == '0'
    ||| c == '1'
    ||| c == '2'
    ||| c == '3'
    ||| c == '4'
    ||| c == '5'
    ||| c == '6'
    ||| c == '7'
    ||| c == '8'
    ||| c == '9'
    ||| c == 'a'
    ||| c == 'b'
    ||| c == 'c'
    ||| c == 'd'
    ||| c == 'e'
    ||| c == 'f'
    ||| c == 'A'
    ||| c == 'B'
    ||| c == 'C'
    ||| c == 'D'
    ||| c == 'E'
    ||| c == 'F'
}

/// The hex color a color code paints with.
pub open spec fn color_hex(c: char) -> Seq<char> {
    if c == '0' {
        "000000"@
    } else if c == '1' {
        "0000AA"@
    } else if c == '2' {
        "00AA00"@
    } else if c == '3' {
        "00AAAA"@
    } else if c == '4' {
        "AA0000"@
    } else if c == '5' {
        "AA00AA"@
    } else if c == '6' {
        "FFAA00"@
    } else if c == '7' {
        "AAAAAA"@
    } else if c == '8' {
        "555555"@
    } else if c == '9' {
        "5555FF"@
    } else if c == 'a' || c == 'A' {
        "55FF55"@
    } else if c == 'b' || c == 'B' {
        "55FFFF"@
    } else if c == 'c' || c == 'C' {
        "FF5555"@
    } else if c == 'd' || c == 'D' {
        "FF55FF"@
    } else if c == 'e' || c == 'E' {
        "FFFF55"@
    } else {
        "FFFFFF"@
    }
}

pub open spec fn is_fmt_code(c: char) -> bool {
    ||| c == 'l'
    ||| c == 'm'
    ||| c == 'n'
    ||| c == 'o'
    ||| c == 'L'
    ||| c == 'M'
    ||| c == 'N'
    ||| c == 'O'
}

/// The inline style a formatting code opens.
pub open spec fn fmt_style(c: char) -> Seq<char> {
    if c == 'l' || c == 'L' {
        "font-weight: bold;"@
    } else if c == 'm' || c == 'M' {
        "text-decoration: line-through;"@
    } else if c == 'n' || c == 'N' {
        "text-decoration: underline;"@
    } else {
        "font-style: italic;"@
    }
}

pub open spec fn is_reset_code(c: char) -> bool {
    c == 'r' || c == 'R'
}

/// `n` closing span tags.
pub open spec fn span_closes(n: nat) -> Seq<char>
    decreases n,
{
    if n == 0 {
        Seq::<char>::empty()
    } else {
        span_closes((n - 1) as nat) + "</span>"@
    }
}

/// The formatting state machine: `code` records whether the control
/// character was just read, `nested` how many span tags are open. A color
/// code closes every open span and opens one; a formatting code opens one
/// more; a reset closes all; the control character before anything else is
/// kept literally.
pub open spec fn pcc_rec(s: Seq<char>, code: bool, nested: nat) -> Seq<char>
    decreases s.len(),
{
    if s.len() == 0 {
        span_closes(nested)
    } else {
        let c = s.first();
        let rest = s.drop_first();
        if c == '\u{a7}' {
            pcc_rec(rest, true, nested)
        } else if code && is_color_code(c) {
            span_closes(nested) + "<span style=\"color: #"@ + color_hex(c) + ";\">"@ + pcc_rec(
                rest,
                false,
                1,
            )
        } else if code && is_fmt_code(c) {
            "<span style=\""@ + fmt_style(c) + "\">"@ + pcc_rec(rest, false, nested + 1)
        } else if code && is_reset_code(c) {
            span_closes(nested) + pcc_rec(rest, false, 0)
        } else if code {
            seq!['\u{a7}', c] + pcc_rec(rest, false, nested)
        } else {
            seq![c] + pcc_rec(rest, false, nested)
        }
    }
}

/// What parsing color codes into markup produces: the state machine run
/// over the whole string with all remaining spans closed; the lone control
/// character is kept as it is.
pub open spec fn parse_color_codes_spec(s: Seq<char>) -> Seq<char> {
    if s == seq!['\u{a7}'] {
        seq!['\u{a7}']
    } else {
        pcc_rec(s, false, 0)
    }
}

fn color_hex_str(c: char) -> (r: &'static str)
    ensures
        r@ == color_hex(c),
{
    if c == '0' {
        "000000"
    } else if c == '1' {
        "0000AA"
    } else if c == '2' {
        "00AA00"
    } else if c == '3' {
        "00AAAA"
    } else if c == '4' {
        "AA0000"
    } else if c == '5' {
        "AA00AA"
    } else if c == '6' {
        "FFAA00"
    } else if c == '7' {
        "AAAAAA"
    } else if c == '8' {
        "555555"
    } else if c == '9' {
        "5555FF"
    } else if c == 'a' || c == 'A' {
        "55FF55"
    } else if c == 'b' || c == 'B' {
        "55FFFF"
    } else if c == 'c' || c == 'C' {
        "FF5555"
    } else if c == 'd' || c == 'D' {
        "FF55FF"
    } else if c == 'e' || c == 'E' {
        "FFFF55"
    } else {
        "FFFFFF"
    }
}

fn fmt_style_str(c: char) -> (r: &'static str)
    ensures
        r@ == fmt_style(c),
{
    if c == 'l' || c == 'L' {
        "font-weight: bold;"
    } else if c == 'm' || c == 'M' {
        "text-decoration: line-through;"
    } else if c == 'n' || c == 'N' {
        "text-decoration: underline;"
    } else {
        "font-style: italic;"
    }
}

fn close_spans(out: &mut Vec<char>, n: usize)
    ensures
        final(out)@ == old(out)@ + span_closes(n as nat),
{
    let mut k: usize = 0;
    proof {
        assert(old(out)@ + span_closes(0) =~= old(out)@);
    }
    while k < n
        invariant
            k <= n,
            out@ == old(out)@ + span_closes(k as nat),
        decreases n - k,
    {
        push_str_chars(out, "</span>");
        k = k + 1;
    }
}

/// Parses the game's formatting codes into markup: color codes become
/// spans painting their color (closing everything open before), formatting
/// codes nest spans with their style, a reset closes every open span, and
/// a control character followed by no valid code is kept literally.
#[verifier::loop_isolation(false)]
#[verifier::rlimit(100)]
pub fn parse_color_codes(raw_string: String) -> (r: String)
    ensures
        r@ == parse_color_codes_spec(raw_string@),
{
    let chars = str_to_chars(raw_string.as_str());
    if chars.len() == 1 && chars[0] == '\u{a7}' {
        proof {
            assert(raw_string@ =~= seq!['\u{a7}']);
        }
        return chars_to_string(&chars);
    }
    proof {
        if raw_string@.len() == 1 && raw_string@[0] == '\u{a7}' {
            assert(false);
        }
        assert(raw_string@ != seq!['\u{a7}']);
    }
    let mut out: Vec<char> = Vec::new();
    let mut code = false;
    let mut nested: usize = 0;
    let mut i: usize = 0;
    proof {
        assert(raw_string@.skip(0) =~= raw_string@);
        assert(out@ + pcc_rec(raw_string@.skip(0), false, 0) =~= pcc_rec(raw_string@, false, 0));
    }
    while i < chars.len()
        invariant
            i <= chars@.len(),
            nested <= i,
            pcc_rec(raw_string@, false, 0) == out@ + pcc_rec(
                raw_string@.skip(i as int),
                code,
                nested as nat,
            ),
        decreases chars@.len() - i,
    {
        let c = chars[i];
        proof {
            assert(raw_string@.skip(i as int).first() == c);
            assert(raw_string@.skip(i as int).drop_first() =~= raw_string@.skip(i + 1));
        }
        if c == '\u{a7}' {
            code = true;
        } else if c == '0' || c == '1' || c == '2' || c == '3' || c == '4' || c == '5' || c == '6'
            || c == '7' || c == '8' || c == '9' || c == 'a' || c == 'b' || c == 'c' || c == 'd'
            || c == 'e' || c == 'f' || c == 'A' || c == 'B' || c == 'C' || c == 'D' || c == 'E'
            || c == 'F' {
            if code {
                code = false;
                close_spans(&mut out, nested);
                push_str_chars(&mut out, "<span style=\"color: #");
                push_str_chars(&mut out, color_hex_str(c));
                push_str_chars(&mut out, ";\">");
                nested = 1;
            } else {
                out.push(c);
                proof {
                    assert(out@ =~= (out@.drop_last() + seq![c]));
                }
            }
        } else if c == 'l' || c == 'm' || c == 'n' || c == 'o' || c == 'L' || c == 'M' || c == 'N'
            || c == 'O' {
            if code {
                code = false;
                push_str_chars(&mut out, "<span style=\"");
                push_str_chars(&mut out, fmt_style_str(c));
                push_str_chars(&mut out, "\">");
                nested = nested + 1;
            } else {
                out.push(c);
                proof {
                    assert(out@ =~= (out@.drop_last() + seq![c]));
                }
            }
        } else if c == 'r' || c == 'R' {
            if code {
                code = false;
                close_spans(&mut out, nested);
                nested = 0;
            } else {
                out.push(c);
                proof {
                    assert(out@ =~= (out@.drop_last() + seq![c]));
                }
            }
        } else {
            if code {
                out.push('\u{a7}');
                out.push(c);
                proof {
                    assert(out@ =~= (out@.drop_last().drop_last() + seq!['\u{a7}', c]));
                }
            } else {
                out.push(c);
                proof {
                    assert(out@ =~= (out@.drop_last() + seq![c]));
                }
            }
            code = false;
        }
        i = i + 1;
    }
    proof {
        assert(raw_string@.skip(i as int).len() == 0);
    }
    close_spans(&mut out, nested);
    chars_to_string(&out)
}

} // verus!
