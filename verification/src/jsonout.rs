//! JSON export: all rows as an array of objects keyed by header name, or by
//! synthesized `col0, col1, …` names when headers are absent, in a compact
//! or a pretty layout.  The emitted text is pinned down character by
//! character by the specification below.

use vstd::prelude::*;
use crate::codec::CsvError;
use crate::table::CsvTable;

verus! {

/// The lower-case hexadecimal digit for a value below sixteen.
pub open spec fn hex_digit(n: int) -> char {
    if n < 10 {
        (48 + n) as char
    } else {
        (87 + n) as char
    }
}

/// The escape of one character inside a JSON string: quote, backslash and
/// control characters are escaped, everything else stands as itself.
pub open spec fn escape_char(c: char) -> Seq<char> {
    if c == '"' {
        seq!['\\', '"']
    } else if c == '\\' {
        seq!['\\', '\\']
    } else if c == '\n' {
        seq!['\\', 'n']
    } else if c == '\r' {
        seq!['\\', 'r']
    } else if c == '\t' {
        seq!['\\', 't']
    } else if c as int == 8 {
        seq!['\\', 'b']
    } else if c as int == 12 {
        seq!['\\', 'f']
    } else if (c as int) < 32 {
        seq!['\\', 'u', '0', '0', hex_digit(c as int / 16), hex_digit(c as int % 16)]
    } else {
        seq![c]
    }
}

/// The escape of a whole string body.
pub open spec fn escape_str(s: Seq<char>) -> Seq<char>
    decreases s.len(),
{
    if s.len() == 0 {
        Seq::empty()
    } else {
        escape_str(s.drop_last()) + escape_char(s.last())
    }
}

/// A JSON string: the escaped body in quotes.
pub open spec fn json_string(s: Seq<char>) -> Seq<char> {
    seq!['"'] + escape_str(s) + seq!['"']
}

/// The decimal digits of a number, most significant first.
pub open spec fn dec_str(n: nat) -> Seq<char>
    decreases n,
{
    if n < 10 {
        seq![(48 + n) as char]
    } else {
        dec_str(n / 10) + seq![(48 + (n % 10)) as char]
    }
}

/// The synthesized name of column `i`.
pub open spec fn col_name(i: nat) -> Seq<char> {
    "col"@ + dec_str(i)
}

/// The keys the export uses: the headers when present, else one
/// synthesized name per column.
pub open spec fn effective_headers(headers: Option<Seq<Seq<char>>>, cc: nat) -> Seq<Seq<char>> {
    match headers {
        Some(h) => h,
        None => Seq::new(cc, |i: int| col_name(i as nat)),
    }
}

/// The number of key/value pairs a row yields: one per cell that has a key.
pub open spec fn pair_count(keys: Seq<Seq<char>>, row: Seq<Seq<char>>) -> int {
    if row.len() < keys.len() {
        row.len() as int
    } else {
        keys.len() as int
    }
}

/// The first `k` pairs of an object body, separated by commas.  In the
/// pretty layout each pair stands on its own line, indented four spaces,
/// with a space after the colon.
pub open spec fn obj_body(keys: Seq<Seq<char>>, row: Seq<Seq<char>>, k: int, pretty: bool) -> Seq<
    char,
>
    decreases k,
{
    if k <= 0 {
        Seq::empty()
    } else {
        let pair = if pretty {
            "    "@ + json_string(keys[k - 1]) + ": "@ + json_string(row[k - 1])
        } else {
            json_string(keys[k - 1]) + seq![':'] + json_string(row[k - 1])
        };
        if k == 1 {
            obj_body(keys, row, k - 1, pretty) + pair
        } else {
            let sep = if pretty {
                ",\n"@
            } else {
                ","@
            };
            obj_body(keys, row, k - 1, pretty) + sep + pair
        }
    }
}

/// One row as a JSON object.
pub open spec fn json_obj(keys: Seq<Seq<char>>, row: Seq<Seq<char>>, pretty: bool) -> Seq<char> {
    let k = pair_count(keys, row);
    if pretty {
        if k == 0 {
            "  {}"@
        } else {
            "  {\n"@ + obj_body(keys, row, k, pretty) + "\n  }"@
        }
    } else {
        seq!['{'] + obj_body(keys, row, k, pretty) + seq!['}']
    }
}

/// The first `n` rows as array elements, separated by commas.
pub open spec fn arr_body(
    keys: Seq<Seq<char>>,
    rows: Seq<Seq<Seq<char>>>,
    n: int,
    pretty: bool,
) -> Seq<char>
    decreases n,
{
    if n <= 0 {
        Seq::empty()
    } else if n == 1 {
        arr_body(keys, rows, n - 1, pretty) + json_obj(keys, rows[n - 1], pretty)
    } else {
        let sep = if pretty {
            ",\n"@
        } else {
            ","@
        };
        arr_body(keys, rows, n - 1, pretty) + sep + json_obj(keys, rows[n - 1], pretty)
    }
}

/// The whole export: all rows as an array of objects, keyed by the
/// effective headers.
pub open spec fn json_export(
    headers: Option<Seq<Seq<char>>>,
    rows: Seq<Seq<Seq<char>>>,
    cc: nat,
    pretty: bool,
) -> Seq<char> {
    let keys = effective_headers(headers, cc);
    if pretty {
        if rows.len() == 0 {
            "[]"@
        } else {
            "[\n"@ + arr_body(keys, rows, rows.len() as int, pretty) + "\n]"@
        }
    } else {
        seq!['['] + arr_body(keys, rows, rows.len() as int, pretty) + seq![']']
    }
}

/// Relies on `String::push`: appends the character to the end of the
/// string.
#[verifier::external_body]
fn push_char(s: &mut String, c: char)
    ensures
        final (s)@ == old(s)@.push(c),
{
    s.push(c);
}

/// Relies on `String::push_str`: appends the characters of the slice to the
/// end of the string.
#[verifier::external_body]
fn push_str_onto(s: &mut String, t: &str)
    ensures
        final (s)@ == old(s)@ + t@,
{
    s.push_str(t);
}

/// Appends the JSON escape of one character.
fn push_escaped_char(out: &mut String, c: char)
    ensures
        final (out)@ == old(out)@ + escape_char(c),
{
    if c == '"' {
        push_str_onto(out, "\\\"");
        proof {
            reveal_strlit("\\\"");
            assert("\\\""@ =~= seq!['\\', '"']);
        }
    } else if c == '\\' {
        push_str_onto(out, "\\\\");
        proof {
            reveal_strlit("\\\\");
            assert("\\\\"@ =~= seq!['\\', '\\']);
        }
    } else if c == '\n' {
        push_str_onto(out, "\\n");
        proof {
            reveal_strlit("\\n");
            assert("\\n"@ =~= seq!['\\', 'n']);
        }
    } else if c == '\r' {
        push_str_onto(out, "\\r");
        proof {
            reveal_strlit("\\r");
            assert("\\r"@ =~= seq!['\\', 'r']);
        }
    } else if c == '\t' {
        push_str_onto(out, "\\t");
        proof {
            reveal_strlit("\\t");
            assert("\\t"@ =~= seq!['\\', 't']);
        }
    } else if (c as u32) == 8 {
        push_str_onto(out, "\\b");
        proof {
            reveal_strlit("\\b");
            assert("\\b"@ =~= seq!['\\', 'b']);
        }
    } else if (c as u32) == 12 {
        push_str_onto(out, "\\f");
        proof {
            reveal_strlit("\\f");
            assert("\\f"@ =~= seq!['\\', 'f']);
        }
    } else if (c as u32) < 32 {
        push_str_onto(out, "\\u00");
        let hi = (c as u32) / 16;
        let lo = (c as u32) % 16;
        let hc: char = if hi < 10 {
            ((48 + hi) as u8) as char
        } else {
            ((87 + hi) as u8) as char
        };
        let lc: char = if lo < 10 {
            ((48 + lo) as u8) as char
        } else {
            ((87 + lo) as u8) as char
        };
        push_char(out, hc);
        push_char(out, lc);
        proof {
            reveal_strlit("\\u00");
            assert("\\u00"@ =~= seq!['\\', 'u', '0', '0']);
            assert(hc == hex_digit(c as int / 16));
            assert(lc == hex_digit(c as int % 16));
            assert(old(out)@ + "\\u00"@ + seq![hc] + seq![lc] =~= old(out)@ + escape_char(c));
        }
    } else {
        push_char(out, c);
        proof {
            assert(old(out)@.push(c) =~= old(out)@ + escape_char(c));
        }
    }
}

/// Appends a cell as a JSON string, quotes and escapes included.
fn push_json_string(out: &mut String, cell: &str)
    ensures
        final (out)@ == old(out)@ + json_string(cell@),
{
    push_char(out, '"');
    let n = cell.unicode_len();
    let mut i: usize = 0;
    while i < n
        invariant
            i <= n,
            n == cell@.len(),
            out@ == old(out)@ + seq!['"'] + escape_str(cell@.subrange(0, i as int)),
        decreases n - i,
    {
        let c = cell.get_char(i);
        push_escaped_char(out, c);
        proof {
            assert(cell@.subrange(0, i + 1).drop_last() =~= cell@.subrange(0, i as int));
            assert(cell@.subrange(0, i + 1).last() == c);
            assert(out@ =~= old(out)@ + seq!['"'] + escape_str(cell@.subrange(0, i + 1)));
        }
        i = i + 1;
    }
    proof {
        assert(cell@.subrange(0, cell@.len() as int) =~= cell@);
    }
    push_char(out, '"');
    proof {
        assert(out@ =~= old(out)@ + json_string(cell@));
    }
}

/// Appends the decimal digits of a number.
fn push_decimal(out: &mut String, n: u64)
    ensures
        final (out)@ == old(out)@ + dec_str(n as nat),
    decreases n,
{
    if n < 10 {
        push_char(out, ((48 + n) as u8) as char);
        proof {
            assert(old(out)@.push(((48 + n) as u8) as char) =~= old(out)@ + dec_str(n as nat));
        }
    } else {
        push_decimal(out, n / 10);
        push_char(out, ((48 + (n % 10)) as u8) as char);
        proof {
            assert(old(out)@ + dec_str((n / 10) as nat) + seq![(48 + (n % 10) as nat) as char]
                =~= old(out)@ + dec_str(n as nat));
        }
    }
}

/// Appends the synthesized name of a column as a JSON string.
fn push_col_name(out: &mut String, i: u64)
    ensures
        final (out)@ == old(out)@ + json_string(col_name(i as nat)),
{
    let mut name = String::new();
    push_str_onto(&mut name, "col");
    push_decimal(&mut name, i);
    proof {
        reveal_strlit("col");
        assert(name@ =~= col_name(i as nat));
    }
    push_json_string(out, name.as_str());
}

impl CsvTable {
    /// Serializes all rows — any active filter is ignored — as a JSON array
    /// of objects keyed by header name, or by `col0, col1, …` when headers
    /// are absent; `pretty` adds line breaks and indentation.  The export
    /// cannot fail.
    pub fn to_json(&self, pretty: bool) -> (r: Result<String, CsvError>)
        ensures
            r matches Ok(s) && s@ == json_export(
                self.headers_model(),
                self.rows_model(),
                self.spec_col_count(),
                pretty,
            ),
    {
        let ghost keys = effective_headers(self.headers_model(), self.spec_col_count());
        let cc = self.column_count();
        let mut out = String::new();
        let nrows = self.data.len();
        if pretty && nrows == 0 {
            push_str_onto(&mut out, "[]");
            return Ok(out);
        }
        if pretty {
            push_str_onto(&mut out, "[\n");
            proof {
                reveal_strlit("[\n");
                assert(out@ =~= "[\n"@);
            }
        } else {
            push_char(&mut out, '[');
            proof {
                assert(out@ =~= seq!['[']);
            }
        }
        let ghost lead = out@;
        let mut r: usize = 0;
        while r < nrows
            invariant
                r <= nrows,
                nrows == self.data@.len(),
                cc as nat == self.spec_col_count(),
                keys == effective_headers(self.headers_model(), self.spec_col_count()),
                out@ == lead + arr_body(keys, self.rows_model(), r as int, pretty),
            decreases nrows - r,
        {
            if r > 0 {
                if pretty {
                    push_str_onto(&mut out, ",\n");
                } else {
                    push_char(&mut out, ',');
                    proof {
                        reveal_strlit(",");
                        assert(","@ =~= seq![',']);
                    }
                }
            }
            self.push_row_obj(&mut out, r, cc, pretty);
            proof {
                reveal_strlit(",\n");
                assert(out@ =~= lead + arr_body(keys, self.rows_model(), r + 1, pretty));
            }
            r = r + 1;
        }
        if pretty {
            push_str_onto(&mut out, "\n]");
            proof {
                reveal_strlit("\n]");
                assert(out@ =~= json_export(
                    self.headers_model(),
                    self.rows_model(),
                    self.spec_col_count(),
                    pretty,
                ));
            }
        } else {
            push_char(&mut out, ']');
            proof {
                assert(out@ =~= json_export(
                    self.headers_model(),
                    self.rows_model(),
                    self.spec_col_count(),
                    pretty,
                ));
            }
        }
        Ok(out)
    }

    /// Appends row `r` as one JSON object.
    fn push_row_obj(&self, out: &mut String, r: usize, cc: usize, pretty: bool)
        requires
            r < self.rows_model().len(),
            cc as nat == self.spec_col_count(),
        ensures
            final (out)@ == old(out)@ + json_obj(
                effective_headers(self.headers_model(), self.spec_col_count()),
                self.rows_model()[r as int],
                pretty,
            ),
    {
        let ghost keys = effective_headers(self.headers_model(), self.spec_col_count());
        let ghost rowm = self.rows_model()[r as int];
        let row = &self.data[r];
        let rlen = row.len();
        let k = if rlen < cc {
            rlen
        } else {
            cc
        };
        assert(k as int == pair_count(keys, rowm));
        if pretty && k == 0 {
            push_str_onto(out, "  {}");
            return ;
        }
        if pretty {
            push_str_onto(out, "  {\n");
        } else {
            push_char(out, '{');
            proof {
                assert(old(out)@.push('{') =~= old(out)@ + seq!['{']);
            }
        }
        let ghost lead = out@;
        let mut i: usize = 0;
        while i < k
            invariant
                i <= k,
                k <= rlen,
                k <= cc,
                rlen == row@.len(),
                r < self.data@.len(),
                row.deep_view() == rowm,
                rowm == self.rows_model()[r as int],
                cc as nat == self.spec_col_count(),
                keys == effective_headers(self.headers_model(), self.spec_col_count()),
                k as int == pair_count(keys, rowm),
                out@ == lead + obj_body(keys, rowm, i as int, pretty),
            decreases k - i,
        {
            if i > 0 {
                if pretty {
                    push_str_onto(out, ",\n");
                } else {
                    push_char(out, ',');
                    proof {
                        reveal_strlit(",");
                        assert(","@ =~= seq![',']);
                    }
                }
            }
            if pretty {
                push_str_onto(out, "    ");
            }
            match &self.headers {
                Some(h) => {
                    push_json_string(out, h[i].as_str());
                },
                None => {
                    push_col_name(out, i as u64);
                    proof {
                        assert(keys[i as int] == col_name(i as nat));
                    }
                },
            }
            if pretty {
                push_str_onto(out, ": ");
            } else {
                push_char(out, ':');
            }
            push_json_string(out, row[i].as_str());
            proof {
                reveal_strlit("    ");
                reveal_strlit(": ");
                reveal_strlit(",\n");
                assert(out@ =~= lead + obj_body(keys, rowm, i + 1, pretty));
            }
            i = i + 1;
        }
        if pretty {
            push_str_onto(out, "\n  }");
            proof {
                reveal_strlit("  {\n");
                reveal_strlit("\n  }");
                assert(out@ =~= old(out)@ + json_obj(keys, rowm, pretty));
            }
        } else {
            push_char(out, '}');
            proof {
                assert(out@ =~= old(out)@ + json_obj(keys, rowm, pretty));
            }
        }
    }
}

} // verus!
