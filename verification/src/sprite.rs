//! The symbol-sprite assembler: turning one rendered SVG document into a
//! `<symbol>` fragment with a canonical id, re-indenting its body, and
//! combining many such fragments into one sprite document.

use vstd::prelude::*;
use crate::chars::{chars_subrange, chars_to_string, str_to_chars, trim_ws, trim_ws_chars,
    trim_ws_str};
use crate::error::ExportError;
use crate::strings::{canonicalize_name, spec_canonicalize};
use crate::xml_lex::{find_char_at, find_from, skip_ws, skip_ws_at};
use crate::xml_model::{nodes_view, nodes_to_string, spaces, spec_nodes_to_text,
    spec_transform_nodes, transform_nodes_id_attributes};
use crate::xmls::{extract_root_attribute, extract_root_inner_nodes, spec_extract_root_attribute,
    spec_extract_root_inner_nodes};

verus! {

/// A line as the splitter yields it: the text up to the line feed, with
/// one carriage return before the line feed stripped.
pub open spec fn line_body(raw: Seq<char>) -> Seq<char> {
    if raw.len() > 0 && raw[raw.len() - 1] == '\r' {
        raw.drop_last()
    } else {
        raw
    }
}

/// The lines of a text, split at each line feed; a carriage return
/// before a line feed is stripped, and a trailing line feed ends the
/// last line rather than opening an empty one.
pub open spec fn split_from(s: Seq<char>, p: int) -> Seq<Seq<char>>
    decreases s.len() - p,
{
    if p < 0 || p >= s.len() {
        Seq::empty()
    } else {
        let k = find_from(s, p, '\n');
        if k < s.len() {
            let next = if k + 1 <= p {
                p + 1
            } else {
                k + 1
            };
            seq![line_body(s.subrange(p, k))] + split_from(s, next)
        } else {
            seq![s.skip(p)]
        }
    }
}

/// The lines of a text.
pub open spec fn spec_lines(s: Seq<char>) -> Seq<Seq<char>> {
    split_from(s, 0)
}

/// The sorting key of a line for the minimum-indentation search: blank
/// lines do not take part, any other line counts its leading whitespace.
pub open spec fn line_key(l: Seq<char>) -> int {
    if trim_ws(l).len() == 0 {
        -1
    } else {
        skip_ws(l, 0)
    }
}

/// The smaller of two indentation keys, where absent keys give way.
pub open spec fn min_merge(a: int, b: int) -> int {
    if a == -1 {
        b
    } else if b == -1 {
        a
    } else if a <= b {
        a
    } else {
        b
    }
}

/// The minimum indentation among the non-blank lines from `i` on, or the
/// absent key when every line is blank.
pub open spec fn min_indent_from(lines: Seq<Seq<char>>, i: int) -> int
    decreases lines.len() - i,
{
    if i < 0 || i >= lines.len() {
        -1
    } else {
        min_merge(line_key(lines[i]), min_indent_from(lines, i + 1))
    }
}

/// The common indentation stripped from a fragment: the minimum over its
/// non-blank lines, or nothing when there is none.
pub open spec fn effective_min_indent(lines: Seq<Seq<char>>) -> int {
    if min_indent_from(lines, 0) == -1 {
        0
    } else {
        min_indent_from(lines, 0)
    }
}

/// One line re-indented: blank lines become empty, any other line keeps
/// its indentation relative to the common minimum and gains the base
/// indent.
pub open spec fn reindent_line(l: Seq<char>, base: nat, min: int) -> Seq<char> {
    if trim_ws(l).len() == 0 {
        Seq::empty()
    } else {
        let ind = skip_ws(l, 0);
        let rel = if ind - min >= 0 {
            ind - min
        } else {
            0
        };
        spaces(base) + spaces(rel as nat) + l.skip(ind)
    }
}

/// Lines joined by single line feeds.
pub open spec fn join_from(lines: Seq<Seq<char>>, i: int) -> Seq<char>
    decreases lines.len() - i,
{
    if i < 0 || i >= lines.len() {
        Seq::empty()
    } else if i == lines.len() - 1 {
        lines[i]
    } else {
        lines[i] + "\n"@ + join_from(lines, i + 1)
    }
}

/// A fragment re-indented to a fixed base indent: the common leading
/// whitespace is stripped first, then the base indent is added uniformly,
/// so nested structure inside the fragment keeps its shape.
pub open spec fn spec_indent_content(s: Seq<char>, base: nat) -> Seq<char> {
    let lines = spec_lines(s);
    let min = effective_min_indent(lines);
    join_from(lines.map_values(|l: Seq<char>| reindent_line(l, base, min)), 0)
}

/// Splits a text into its lines.
#[verifier::loop_isolation(false)]
fn split_lines_exec(v: &Vec<char>) -> (r: Vec<Vec<char>>)
    ensures
        r@.map_values(|l: Vec<char>| l@) == spec_lines(v@),
{
    let n = v.len();
    let mut lines: Vec<Vec<char>> = Vec::new();
    let mut p: usize = 0;
    proof {
        assert(lines@.map_values(|l: Vec<char>| l@) + split_from(v@, 0) =~= split_from(v@, 0));
    }
    while p < n
        invariant
            p <= n,
            spec_lines(v@) == lines@.map_values(|l: Vec<char>| l@) + split_from(v@, p as int),
        decreases n - p,
    {
        let ghost lines_before = lines@;
        let k = find_char_at(v, p, '\n');
        proof {
            crate::xml_lex::lemma_find_from(v@, p as int, '\n');
        }
        if k < n {
            let mut line = chars_subrange(v, p, k);
            let ll = line.len();
            if ll > 0 && line[ll - 1] == '\r' {
                line.pop();
            }
            proof {
                assert(line@ =~= line_body(v@.subrange(p as int, k as int)));
            }
            lines.push(line);
            proof {
                assert(lines@.map_values(|l: Vec<char>| l@) =~= lines_before.map_values(
                    |l: Vec<char>| l@,
                ).push(line_body(v@.subrange(p as int, k as int))));
                assert(lines@.map_values(|l: Vec<char>| l@) + split_from(v@, k + 1 as int)
                    =~= spec_lines(v@));
            }
            p = k + 1;
        } else {
            let line = chars_subrange(v, p, n);
            lines.push(line);
            proof {
                assert(v@.subrange(p as int, n as int) =~= v@.skip(p as int));
                assert(lines@.map_values(|l: Vec<char>| l@) =~= lines_before.map_values(
                    |l: Vec<char>| l@,
                ).push(v@.skip(p as int)));
                assert(lines@.map_values(|l: Vec<char>| l@) + split_from(v@, n as int)
                    =~= spec_lines(v@));
            }
            p = n;
        }
    }
    proof {
        assert(split_from(v@, n as int) =~= Seq::<Seq<char>>::empty());
        assert(lines@.map_values(|l: Vec<char>| l@) + split_from(v@, n as int) =~= lines@
            .map_values(|l: Vec<char>| l@));
    }
    lines
}

/// The indentation key of one line.
fn line_key_exec(l: &Vec<char>) -> (r: Option<usize>)
    ensures
        match r {
            Option::Some(k) => line_key(l@) == k as int,
            Option::None => line_key(l@) == -1,
        },
{
    let t = trim_ws_chars(l);
    if t.len() == 0 {
        None
    } else {
        let k = skip_ws_at(l, 0);
        Some(k)
    }
}

/// Indents each line of content to a fixed base indent, preserving each
/// line's indentation relative to the minimum indentation found across
/// all non-blank lines.
#[verifier::loop_isolation(false)]
pub fn indent_content(content: &str, base_spaces: usize) -> (r: String)
    ensures
        r@ == spec_indent_content(content@, base_spaces as nat),
{
    let v = str_to_chars(content);
    let lines = split_lines_exec(&v);
    let ghost lv = lines@.map_values(|l: Vec<char>| l@);
    let n = lines.len();
    proof {
        assert(lv.len() == n);
    }
    // Find the minimum indentation among non-blank lines.
    let mut min_found = false;
    let mut min_val: usize = 0;
    let mut i: usize = 0;
    while i < n
        invariant
            i <= n,
            n == lines@.len(),
            lv == lines@.map_values(|l: Vec<char>| l@),
            min_indent_from(lv, 0) == (
            if min_found {
                min_merge(min_val as int, min_indent_from(lv, i as int))
            } else {
                min_indent_from(lv, i as int)
            }),
            min_found ==> min_val as int != -1,
        decreases n - i,
    {
        proof {
            assert(lv[i as int] == lines@[i as int]@);
        }
        match line_key_exec(&lines[i]) {
            Some(k) => {
                if !min_found {
                    min_found = true;
                    min_val = k;
                } else if k < min_val {
                    min_val = k;
                }
            },
            None => {},
        }
        i = i + 1;
    }
    proof {
        assert(min_indent_from(lv, n as int) == -1);
    }
    let min: usize = if min_found {
        min_val
    } else {
        0
    };
    proof {
        assert(min as int == effective_min_indent(lv));
    }
    // Re-indent each line and join with line feeds.
    let ghost mapped = lv.map_values(
        |l: Seq<char>| reindent_line(l, base_spaces as nat, effective_min_indent(lv)),
    );
    let mut out = String::new();
    let mut j: usize = 0;
    proof {
        assert(mapped.len() == n);
        assert(out@ + join_from(mapped, 0) =~= join_from(mapped, 0));
    }
    while j < n
        invariant
            j <= n,
            n == lines@.len(),
            lv == lines@.map_values(|l: Vec<char>| l@),
            mapped == lv.map_values(
                |l: Seq<char>| reindent_line(l, base_spaces as nat, effective_min_indent(lv)),
            ),
            mapped.len() == n,
            min as int == effective_min_indent(lv),
            join_from(mapped, 0) == out@ + join_from(mapped, j as int),
        decreases n - j,
    {
        proof {
            assert(lv[j as int] == lines@[j as int]@);
            assert(mapped[j as int] == reindent_line(
                lv[j as int],
                base_spaces as nat,
                effective_min_indent(lv),
            ));
        }
        let line = &lines[j];
        let trimmed = trim_ws_chars(line);
        if trimmed.len() > 0 {
            let ind = skip_ws_at(line, 0);
            let rel: usize = if ind >= min {
                ind - min
            } else {
                0
            };
            let base_sp = crate::xml_model::spaces_string(base_spaces);
            let rel_sp = crate::xml_model::spaces_string(rel);
            out.append(base_sp.as_str());
            out.append(rel_sp.as_str());
            proof {
                crate::xml_lex::lemma_skip_ws(lv[j as int], 0);
            }
            let tail = chars_subrange(line, ind, line.len());
            let tail_s = chars_to_string(&tail);
            out.append(tail_s.as_str());
            proof {
                assert(lv[j as int].subrange(skip_ws(lv[j as int], 0), lv[j as int].len() as int)
                    =~= lv[j as int].skip(skip_ws(lv[j as int], 0)));
            }
        }
        if j + 1 < n {
            out.append("\n");
        }
        j = j + 1;
        proof {
            assert(out@ + join_from(mapped, j as int) =~= join_from(mapped, 0));
        }
    }
    proof {
        assert(out@ =~= join_from(mapped, 0));
    }
    out
}

/// The `<symbol>` fragment built from one rendered SVG document: its
/// `viewBox` is copied verbatim, its children are embedded with every
/// `id` canonicalized and the whole body re-indented; a document without
/// a `viewBox`, without children, or with a blank body yields nothing.
pub open spec fn spec_convert_svg_to_symbol(svg: Seq<char>, symbol_id: Seq<char>) -> Option<
    Seq<char>,
> {
    match spec_extract_root_attribute(svg, "viewBox"@) {
        Option::None => Option::None,
        Option::Some(viewbox) => match spec_extract_root_inner_nodes(svg) {
            Option::None => Option::None,
            Option::Some(nodes) => {
                if nodes.len() == 0 {
                    Option::None
                } else {
                    let inner = spec_nodes_to_text(spec_transform_nodes(nodes));
                    if trim_ws(inner).len() == 0 {
                        Option::None
                    } else {
                        let indented = spec_indent_content(inner, 4);
                        if trim_ws(indented).len() == 0 {
                            Option::None
                        } else {
                            Option::Some(
                                "  <symbol id=\""@ + symbol_id + "\" viewBox=\""@ + viewbox
                                    + "\">\n"@ + indented + "\n  </symbol>"@,
                            )
                        }
                    }
                }
            },
        },
    }
}

/// Converts an SVG document to a symbol element with the given id.
pub fn convert_svg_to_symbol(svg_content: &str, symbol_id: &str) -> (r: Option<String>)
    ensures
        match r {
            Option::Some(sym) => spec_convert_svg_to_symbol(svg_content@, symbol_id@)
                == Option::Some(sym@),
            Option::None => spec_convert_svg_to_symbol(svg_content@, symbol_id@) is None,
        },
{
    let viewbox = match extract_root_attribute(svg_content, "viewBox") {
        None => {
            return None;
        },
        Some(v) => v,
    };
    let inner_nodes = match extract_root_inner_nodes(svg_content) {
        None => {
            return None;
        },
        Some(ns) => ns,
    };
    proof {
        crate::xml_model::lemma_nodes_view_len(inner_nodes@);
    }
    if inner_nodes.len() == 0 {
        return None;
    }
    let transformed = transform_nodes_id_attributes(inner_nodes);
    let inner_content = nodes_to_string(&transformed);
    let ic = str_to_chars(inner_content.as_str());
    let ict = trim_ws_chars(&ic);
    if ict.len() == 0 {
        return None;
    }
    let indented = indent_content(inner_content.as_str(), 4);
    let iv = str_to_chars(indented.as_str());
    let ivt = trim_ws_chars(&iv);
    if ivt.len() == 0 {
        return None;
    }
    let mut out = String::new();
    out.append("  <symbol id=\"");
    out.append(symbol_id);
    out.append("\" viewBox=\"");
    out.append(viewbox.as_str());
    out.append("\">\n");
    out.append(indented.as_str());
    out.append("\n  </symbol>");
    proof {
        assert(out@ =~= "  <symbol id=\""@ + symbol_id@ + "\" viewBox=\""@ + viewbox@ + "\">\n"@
            + indented@ + "\n  </symbol>"@);
    }
    Some(out)
}

/// The body of the sprite: each symbol followed by a line feed, and a
/// blank line before every symbol but the first.
pub open spec fn sprite_body(symbols: Seq<Seq<char>>, i: int) -> Seq<char>
    decreases symbols.len() - i,
{
    if i < 0 || i >= symbols.len() {
        Seq::empty()
    } else {
        (if i > 0 {
            "\n"@
        } else {
            Seq::empty()
        }) + symbols[i] + "\n"@ + sprite_body(symbols, i + 1)
    }
}

/// The whole sprite document: a fixed invisible wrapper around the
/// symbols.
pub open spec fn spec_build_sprite(symbols: Seq<Seq<char>>) -> Seq<char> {
    "<svg width=\"0\" height=\"0\" style=\"position:absolute\">"@ + "\n"@ + sprite_body(symbols, 0)
        + "</svg>\n"@
}

/// Builds the combined SVG symbols file.
#[verifier::loop_isolation(false)]
pub fn build_svg_symbols_file(symbols: &Vec<String>) -> (r: String)
    ensures
        r@ == spec_build_sprite(symbols@.map_values(|s: String| s@)),
{
    let ghost sv = symbols@.map_values(|s: String| s@);
    let n = symbols.len();
    let mut out = String::new();
    out.append("<svg width=\"0\" height=\"0\" style=\"position:absolute\">");
    out.append("\n");
    let ghost head = out@;
    let mut i: usize = 0;
    proof {
        assert(sv.len() == n);
        assert(out@ + sprite_body(sv, 0) =~= head + sprite_body(sv, 0));
    }
    while i < n
        invariant
            i <= n,
            n == symbols@.len(),
            sv == symbols@.map_values(|s: String| s@),
            sv.len() == n,
            head + sprite_body(sv, 0) == out@ + sprite_body(sv, i as int),
        decreases n - i,
    {
        proof {
            assert(sv[i as int] == symbols@[i as int]@);
        }
        if i > 0 {
            out.append("\n");
        }
        out.append(symbols[i].as_str());
        out.append("\n");
        i = i + 1;
        proof {
            assert(out@ + sprite_body(sv, i as int) =~= head + sprite_body(sv, 0));
        }
    }
    proof {
        assert(sprite_body(sv, n as int) =~= Seq::<char>::empty());
    }
    out.append("</svg>\n");
    proof {
        assert(out@ =~= spec_build_sprite(sv));
    }
    out
}

/// The symbol of one artboard: its rendered SVG converted under the
/// artboard's canonicalized name.
pub open spec fn spec_symbol_of(name: Seq<char>, text: Seq<char>) -> Option<Seq<char>> {
    spec_convert_svg_to_symbol(text, spec_canonicalize(name))
}

/// The symbols of all artboards in order, or the index of the first
/// artboard whose document cannot be converted.
pub open spec fn spec_symbols(names: Seq<Seq<char>>, texts: Seq<Seq<char>>, i: int) -> Result<
    Seq<Seq<char>>,
    int,
>
    decreases names.len() - i,
{
    if i < 0 || i >= names.len() {
        Result::Ok(Seq::empty())
    } else {
        match spec_symbol_of(names[i], texts[i]) {
            Option::None => Result::Err(i),
            Option::Some(sym) => match spec_symbols(names, texts, i + 1) {
                Result::Err(j) => Result::Err(j),
                Result::Ok(rest) => Result::Ok(seq![sym] + rest),
            },
        }
    }
}

/// Builds the sprite for a list of artboards from their names and their
/// rendered SVG documents, in order. The first artboard whose document
/// cannot be converted aborts the assembly and is named in the error.
#[verifier::loop_isolation(false)]
pub fn assemble_sprite(names: &Vec<String>, svg_texts: &Vec<String>) -> (r: Result<
    String,
    ExportError,
>)
    requires
        names@.len() == svg_texts@.len(),
    ensures
        ({
            let nv = names@.map_values(|s: String| s@);
            let tv = svg_texts@.map_values(|s: String| s@);
            match spec_symbols(nv, tv, 0) {
                Result::Ok(syms) => r matches Ok(text) && text@ == spec_build_sprite(syms),
                Result::Err(j) => r matches Err(e) && e matches ExportError::InvalidSvg(p) && p@
                    == nv[j],
            }
        }),
{
    let ghost nv = names@.map_values(|s: String| s@);
    let ghost tv = svg_texts@.map_values(|s: String| s@);
    let n = names.len();
    let mut symbols: Vec<String> = Vec::new();
    let mut i: usize = 0;
    proof {
        assert(nv.len() == n);
        assert(tv.len() == n);
    }
    while i < n
        invariant
            i <= n,
            n == names@.len(),
            n == svg_texts@.len(),
            nv == names@.map_values(|s: String| s@),
            tv == svg_texts@.map_values(|s: String| s@),
            nv.len() == n,
            tv.len() == n,
            symbols@.len() == i,
            spec_symbols(nv, tv, 0) == (match spec_symbols(nv, tv, i as int) {
                Result::Err(j) => Result::<Seq<Seq<char>>, int>::Err(j),
                Result::Ok(rest) => Result::<Seq<Seq<char>>, int>::Ok(
                    symbols@.map_values(|s: String| s@) + rest,
                ),
            }),
        decreases n - i,
    {
        proof {
            assert(nv[i as int] == names@[i as int]@);
            assert(tv[i as int] == svg_texts@[i as int]@);
        }
        let symbol_id = canonicalize_name(names[i].as_str());
        let ghost symbols_before = symbols@;
        match convert_svg_to_symbol(svg_texts[i].as_str(), symbol_id.as_str()) {
            None => {
                return Err(ExportError::InvalidSvg(names[i].clone()));
            },
            Some(sym) => {
                symbols.push(sym);
            },
        }
        i = i + 1;
        proof {
            assert(symbols@.map_values(|s: String| s@) =~= symbols_before.map_values(
                |s: String| s@,
            ).push(symbols@[i - 1]@));
            match spec_symbols(nv, tv, i as int) {
                Result::Err(j) => {},
                Result::Ok(rest) => {
                    assert(symbols_before.map_values(|s: String| s@) + (seq![
                        symbols@[i - 1]@,
                    ] + rest) =~= symbols@.map_values(|s: String| s@) + rest);
                },
            }
        }
    }
    proof {
        assert(symbols@.map_values(|s: String| s@) + Seq::<Seq<char>>::empty() =~= symbols@
            .map_values(|s: String| s@));
    }
    let sprite = build_svg_symbols_file(&symbols);
    Ok(sprite)
}

} // verus!
