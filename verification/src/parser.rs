//! CSV record reading under RFC 4180 quoting, with a backslash-escape
//! fallback, and the quote-balance validator that makes the choice between
//! the two modes deterministic.
//!
//! Records are separated by `\n`, `\r` or `\r\n`; zero-length lines yield
//! no record. A field beginning with `"` is quoted: inside it, `""` (and
//! `\"` in backslash mode) stand for one quote, and the delimiter and line
//! breaks are ordinary content. A quote elsewhere in a field is literal.

use vstd::prelude::*;

use crate::bytes::{views_of, views_of_records};

verus! {

/// CSV escape mode for parsing.
#[derive(Debug, Clone, Copy, PartialEq, Eq, Structural)]
pub enum EscapeMode {
    /// RFC 4180 quoting (`""` for quote escapes).
    Rfc,
    /// Backslash escape inside quoted fields, besides `""`.
    Backslash,
}

impl EscapeMode {
    /// The escape byte handed to the reader, if any.
    pub fn escape_byte(self) -> (r: Option<u8>)
        ensures
            self == EscapeMode::Rfc ==> r is None,
            self == EscapeMode::Backslash ==> r == Some(0x5Cu8),
    {
        match self {
            EscapeMode::Rfc => None,
            EscapeMode::Backslash => Some(0x5C),
        }
    }

    /// Render the escape mode for human output.
    pub fn display_str(self) -> (r: &'static str) {
        match self {
            EscapeMode::Rfc => "none",
            EscapeMode::Backslash => "\\\\",
        }
    }
}

/// Error reported when neither escape mode parses the input.
#[derive(Debug, Clone, Copy, PartialEq, Eq, Structural)]
pub struct CsvParseError {
    pub escape_mode: EscapeMode,
    pub record: Option<u64>,
    pub line: Option<u64>,
}

/// The quote-balance rule, from a given position and quoting state:
/// outside quotes a `"` opens one; inside, `""` (and `\"` in backslash
/// mode) escape; a closing `"` must be followed by the delimiter, CR, LF
/// or the end; the stream must not end inside quotes.
pub open spec fn spec_quotes_valid_from(s: Seq<u8>, delim: u8, bs: bool, in_quotes: bool) -> bool
    decreases s.len(),
{
    if s.len() == 0 {
        !in_quotes
    } else if in_quotes {
        if bs && s[0] == 0x5C && s.len() >= 2 && s[1] == 0x22 {
            spec_quotes_valid_from(s.skip(2), delim, bs, true)
        } else if s[0] == 0x22 {
            if s.len() >= 2 && s[1] == 0x22 {
                spec_quotes_valid_from(s.skip(2), delim, bs, true)
            } else if s.len() >= 2 {
                if s[1] == delim || s[1] == 0x0A || s[1] == 0x0D {
                    spec_quotes_valid_from(s.skip(1), delim, bs, false)
                } else {
                    false
                }
            } else {
                true
            }
        } else {
            spec_quotes_valid_from(s.skip(1), delim, bs, true)
        }
    } else {
        if s[0] == 0x22 {
            spec_quotes_valid_from(s.skip(1), delim, bs, true)
        } else {
            spec_quotes_valid_from(s.skip(1), delim, bs, false)
        }
    }
}

/// The whole stream passes the quote-balance rule.
pub open spec fn spec_quotes_valid(s: Seq<u8>, delim: u8, bs: bool) -> bool {
    spec_quotes_valid_from(s, delim, bs, false)
}

/// Scan the bytes for unbalanced or badly closed quotes.
pub fn validate_quotes(input: &[u8], delimiter: u8, escape: EscapeMode) -> (r: bool)
    ensures
        r == spec_quotes_valid(input@, delimiter, escape == EscapeMode::Backslash),
{
    let bs = match escape {
        EscapeMode::Rfc => false,
        EscapeMode::Backslash => true,
    };
    let n = input.len();
    let mut i: usize = 0;
    let mut in_quotes = false;
    proof {
        assert(input@.skip(0) =~= input@);
    }
    while i < n
        invariant
            0 <= i <= n,
            n == input@.len(),
            bs == (escape == EscapeMode::Backslash),
            spec_quotes_valid(input@, delimiter, bs) == spec_quotes_valid_from(
                input@.skip(i as int),
                delimiter,
                bs,
                in_quotes,
            ),
        decreases n - i,
    {
        let ghost rest = input@.skip(i as int);
        proof {
            assert(rest[0] == input@[i as int]);
            assert(rest.drop_first() =~= input@.skip(i + 1));
            if rest.len() >= 2 {
                assert(rest[1] == input@[i + 1]);
                assert(rest.skip(2) =~= input@.skip(i + 2));
            }
            assert(rest.skip(1) =~= input@.skip(i + 1));
        }
        let b = input[i];
        if in_quotes {
            if bs && b == 0x5C && i + 1 < n && input[i + 1] == 0x22 {
                i = i + 2;
            } else if b == 0x22 {
                if i + 1 < n && input[i + 1] == 0x22 {
                    i = i + 2;
                } else if i + 1 < n {
                    let nxt = input[i + 1];
                    if nxt == delimiter || nxt == 0x0A || nxt == 0x0D {
                        in_quotes = false;
                        i = i + 1;
                    } else {
                        return false;
                    }
                } else {
                    return true;
                }
            } else {
                i = i + 1;
            }
        } else {
            if b == 0x22 {
                in_quotes = true;
            }
            i = i + 1;
        }
    }
    proof {
        assert(input@.skip(n as int) =~= Seq::<u8>::empty());
    }
    !in_quotes
}

/// One step of record assembly: close the current record, unless the line
/// held no bytes at all.
pub open spec fn spec_finish_record(
    records: Seq<Seq<Seq<u8>>>,
    fields: Seq<Seq<u8>>,
    field: Seq<u8>,
    started: bool,
) -> Seq<Seq<Seq<u8>>> {
    if started {
        records.push(fields.push(field))
    } else {
        records
    }
}

/// The reader's state machine, from a given position. `mode` is 0 at a
/// field start, 1 inside an unquoted field, 2 inside a quoted field;
/// `skip_lf` consumes the LF of a CRLF pair.
pub open spec fn spec_csv_run(
    s: Seq<u8>,
    delim: u8,
    bs: bool,
    mode: int,
    skip_lf: bool,
    started: bool,
    field: Seq<u8>,
    fields: Seq<Seq<u8>>,
    records: Seq<Seq<Seq<u8>>>,
) -> Seq<Seq<Seq<u8>>>
    decreases s.len(),
{
    if s.len() == 0 {
        spec_finish_record(records, fields, field, started)
    } else {
        let b = s[0];
        if skip_lf && b == 0x0A {
            spec_csv_run(s.skip(1), delim, bs, mode, false, started, field, fields, records)
        } else if mode == 2 {
            if bs && b == 0x5C && s.len() >= 2 {
                spec_csv_run(
                    s.skip(2),
                    delim,
                    bs,
                    2,
                    false,
                    started,
                    field.push(s[1]),
                    fields,
                    records,
                )
            } else if b == 0x22 {
                if s.len() >= 2 && s[1] == 0x22 {
                    spec_csv_run(
                        s.skip(2),
                        delim,
                        bs,
                        2,
                        false,
                        started,
                        field.push(0x22),
                        fields,
                        records,
                    )
                } else {
                    spec_csv_run(s.skip(1), delim, bs, 1, false, started, field, fields, records)
                }
            } else {
                spec_csv_run(s.skip(1), delim, bs, 2, false, started, field.push(b), fields, records)
            }
        } else {
            if b == delim {
                spec_csv_run(
                    s.skip(1),
                    delim,
                    bs,
                    0,
                    false,
                    true,
                    Seq::<u8>::empty(),
                    fields.push(field),
                    records,
                )
            } else if b == 0x0A {
                spec_csv_run(
                    s.skip(1),
                    delim,
                    bs,
                    0,
                    false,
                    false,
                    Seq::<u8>::empty(),
                    Seq::<Seq<u8>>::empty(),
                    spec_finish_record(records, fields, field, started),
                )
            } else if b == 0x0D {
                spec_csv_run(
                    s.skip(1),
                    delim,
                    bs,
                    0,
                    true,
                    false,
                    Seq::<u8>::empty(),
                    Seq::<Seq<u8>>::empty(),
                    spec_finish_record(records, fields, field, started),
                )
            } else if b == 0x22 && mode == 0 {
                spec_csv_run(s.skip(1), delim, bs, 2, false, true, field, fields, records)
            } else {
                spec_csv_run(s.skip(1), delim, bs, 1, false, true, field.push(b), fields, records)
            }
        }
    }
}

/// The records of a byte stream under a delimiter and escape mode.
pub open spec fn spec_csv_records(s: Seq<u8>, delim: u8, bs: bool) -> Seq<Seq<Seq<u8>>> {
    spec_csv_run(
        s,
        delim,
        bs,
        0,
        false,
        false,
        Seq::<u8>::empty(),
        Seq::<Seq<u8>>::empty(),
        Seq::<Seq<Seq<u8>>>::empty(),
    )
}

/// The end offsets of the records of a byte stream: for each emitted
/// record, the offset just past the byte that ended it. `pos` is the
/// absolute offset of `s[0]`.
pub open spec fn spec_csv_ends_run(
    s: Seq<u8>,
    delim: u8,
    bs: bool,
    pos: int,
    mode: int,
    skip_lf: bool,
    started: bool,
    ends: Seq<int>,
) -> Seq<int>
    decreases s.len(),
{
    if s.len() == 0 {
        if started {
            ends.push(pos)
        } else {
            ends
        }
    } else {
        let b = s[0];
        if skip_lf && b == 0x0A {
            spec_csv_ends_run(s.skip(1), delim, bs, pos + 1, mode, false, started, ends)
        } else if mode == 2 {
            if bs && b == 0x5C && s.len() >= 2 {
                spec_csv_ends_run(s.skip(2), delim, bs, pos + 2, 2, false, started, ends)
            } else if b == 0x22 {
                if s.len() >= 2 && s[1] == 0x22 {
                    spec_csv_ends_run(s.skip(2), delim, bs, pos + 2, 2, false, started, ends)
                } else {
                    spec_csv_ends_run(s.skip(1), delim, bs, pos + 1, 1, false, started, ends)
                }
            } else {
                spec_csv_ends_run(s.skip(1), delim, bs, pos + 1, 2, false, started, ends)
            }
        } else {
            if b == delim {
                spec_csv_ends_run(s.skip(1), delim, bs, pos + 1, 0, false, true, ends)
            } else if b == 0x0A || b == 0x0D {
                spec_csv_ends_run(
                    s.skip(1),
                    delim,
                    bs,
                    pos + 1,
                    0,
                    b == 0x0D,
                    false,
                    if started {
                        ends.push(pos + 1)
                    } else {
                        ends
                    },
                )
            } else if b == 0x22 && mode == 0 {
                spec_csv_ends_run(s.skip(1), delim, bs, pos + 1, 2, false, true, ends)
            } else {
                spec_csv_ends_run(s.skip(1), delim, bs, pos + 1, 1, false, true, ends)
            }
        }
    }
}

/// The end offsets of all records of a byte stream.
pub open spec fn spec_csv_ends(s: Seq<u8>, delim: u8, bs: bool) -> Seq<int> {
    spec_csv_ends_run(s, delim, bs, 0, 0, false, false, Seq::<int>::empty())
}

/// Read all records of the input under the given dialect.
#[verifier::rlimit(60)]
pub fn read_records_with_ends(input: &[u8], delimiter: u8, escape: EscapeMode) -> (r: (
    Vec<Vec<Vec<u8>>>,
    Vec<usize>,
))
    ensures
        views_of_records(r.0@) == spec_csv_records(
            input@,
            delimiter,
            escape == EscapeMode::Backslash,
        ),
        r.1@.map_values(|e: usize| e as int) == spec_csv_ends(
            input@,
            delimiter,
            escape == EscapeMode::Backslash,
        ),
        r.1@.len() == r.0@.len(),
        forall|k: int| 0 <= k < r.1@.len() ==> #[trigger] r.1@[k] <= input@.len(),
{
    let bs = match escape {
        EscapeMode::Rfc => false,
        EscapeMode::Backslash => true,
    };
    let n = input.len();
    let mut records: Vec<Vec<Vec<u8>>> = Vec::new();
    let mut ends: Vec<usize> = Vec::new();
    let mut fields: Vec<Vec<u8>> = Vec::new();
    let mut field: Vec<u8> = Vec::new();
    let mut mode: u8 = 0;
    let mut skip_lf = false;
    let mut started = false;
    let mut i: usize = 0;
    proof {
        assert(input@.skip(0) =~= input@);
        assert(fields@ =~= Seq::<Vec<u8>>::empty());
        assert(views_of(fields@) =~= Seq::<Seq<u8>>::empty());
        assert(views_of_records(records@) =~= Seq::<Seq<Seq<u8>>>::empty());
        assert(ends@.map_values(|e: usize| e as int) =~= Seq::<int>::empty());
    }
    while i < n
        invariant
            0 <= i <= n,
            n == input@.len(),
            mode == 0 || mode == 1 || mode == 2,
            bs == (escape == EscapeMode::Backslash),
            !started ==> fields@.len() == 0 && field@.len() == 0,
            mode != 0 ==> started,
            spec_csv_records(input@, delimiter, bs) == spec_csv_run(
                input@.skip(i as int),
                delimiter,
                bs,
                mode as int,
                skip_lf,
                started,
                field@,
                views_of(fields@),
                views_of_records(records@),
            ),
            spec_csv_ends(input@, delimiter, bs) == spec_csv_ends_run(
                input@.skip(i as int),
                delimiter,
                bs,
                i as int,
                mode as int,
                skip_lf,
                started,
                ends@.map_values(|e: usize| e as int),
            ),
            ends@.len() == records@.len(),
            forall|k: int| 0 <= k < ends@.len() ==> #[trigger] ends@[k] <= n,
        decreases n - i,
    {
        let ghost rest = input@.skip(i as int);
        proof {
            assert(rest[0] == input@[i as int]);
            assert(rest.skip(1) =~= input@.skip(i + 1));
            if rest.len() >= 2 {
                assert(rest[1] == input@[i + 1]);
                assert(rest.skip(2) =~= input@.skip(i + 2));
            }
        }
        let b = input[i];
        if skip_lf && b == 0x0A {
            skip_lf = false;
            i = i + 1;
        } else if mode == 2 {
            skip_lf = false;
            if bs && b == 0x5C && i + 1 < n {
                field.push(input[i + 1]);
                i = i + 2;
            } else if b == 0x22 {
                if i + 1 < n && input[i + 1] == 0x22 {
                    field.push(0x22);
                    i = i + 2;
                } else {
                    mode = 1;
                    i = i + 1;
                }
            } else {
                field.push(b);
                i = i + 1;
            }
        } else {
            skip_lf = false;
            if b == delimiter {
                let done = field;
                field = Vec::new();
                let ghost pre_fields = views_of(fields@);
                fields.push(done);
                proof {
                    assert(views_of(fields@) =~= pre_fields.push(done@));
                }
                mode = 0;
                started = true;
                i = i + 1;
            } else if b == 0x0A || b == 0x0D {
                if started {
                    let done_field = field;
                    field = Vec::new();
                    let ghost pre_fields = views_of(fields@);
                    let mut done_fields = fields;
                    fields = Vec::new();
                    done_fields.push(done_field);
                    proof {
                        assert(views_of(done_fields@) =~= pre_fields.push(done_field@));
                    }
                    let ghost pre_records = views_of_records(records@);
                    records.push(done_fields);
                    let ghost pre_ends = ends@.map_values(|e: usize| e as int);
                    ends.push(i + 1);
                    proof {
                        assert(views_of_records(records@) =~= pre_records.push(
                            pre_fields.push(done_field@),
                        ));
                        assert(ends@.map_values(|e: usize| e as int) =~= pre_ends.push(i + 1));
                    }
                }
                started = false;
                mode = 0;
                skip_lf = b == 0x0D;
                i = i + 1;
                proof {
                    assert(views_of(fields@) =~= Seq::<Seq<u8>>::empty());
                    assert(field@ =~= Seq::<u8>::empty());
                }
            } else if b == 0x22 && mode == 0 {
                mode = 2;
                started = true;
                i = i + 1;
            } else {
                field.push(b);
                mode = 1;
                started = true;
                i = i + 1;
            }
        }
    }
    proof {
        assert(input@.skip(n as int) =~= Seq::<u8>::empty());
    }
    if started {
        let done_field = field;
        let ghost pre_fields = views_of(fields@);
        let mut done_fields = fields;
        done_fields.push(done_field);
        proof {
            assert(views_of(done_fields@) =~= pre_fields.push(done_field@));
        }
        let ghost pre_records = views_of_records(records@);
        records.push(done_fields);
        let ghost pre_ends = ends@.map_values(|e: usize| e as int);
        ends.push(n);
        proof {
            assert(views_of_records(records@) =~= pre_records.push(
                pre_fields.push(done_field@),
            ));
            assert(ends@.map_values(|e: usize| e as int) =~= pre_ends.push(n as int));
        }
    }
    (records, ends)
}

/// Read all records of the input under the given dialect.
pub fn read_records(input: &[u8], delimiter: u8, escape: EscapeMode) -> (r: Vec<Vec<Vec<u8>>>)
    ensures
        views_of_records(r@) == spec_csv_records(
            input@,
            delimiter,
            escape == EscapeMode::Backslash,
        ),
{
    read_records_with_ends(input, delimiter, escape).0
}


/// The 1-based line of the first quote fault, counting every LF byte seen
/// (quoted newlines included), or `None` when the stream passes the rule.
pub open spec fn spec_quote_fault_line(
    s: Seq<u8>,
    delim: u8,
    bs: bool,
    in_quotes: bool,
    line: int,
) -> Option<int>
    decreases s.len(),
{
    if s.len() == 0 {
        if in_quotes {
            Some(line)
        } else {
            None
        }
    } else if in_quotes {
        if bs && s[0] == 0x5C && s.len() >= 2 && s[1] == 0x22 {
            spec_quote_fault_line(s.skip(2), delim, bs, true, line)
        } else if s[0] == 0x22 {
            if s.len() >= 2 && s[1] == 0x22 {
                spec_quote_fault_line(s.skip(2), delim, bs, true, line)
            } else if s.len() >= 2 {
                if s[1] == delim || s[1] == 0x0A || s[1] == 0x0D {
                    spec_quote_fault_line(s.skip(1), delim, bs, false, line)
                } else {
                    Some(line)
                }
            } else {
                None
            }
        } else {
            spec_quote_fault_line(
                s.skip(1),
                delim,
                bs,
                true,
                if s[0] == 0x0A {
                    line + 1
                } else {
                    line
                },
            )
        }
    } else {
        if s[0] == 0x22 {
            spec_quote_fault_line(s.skip(1), delim, bs, true, line)
        } else {
            spec_quote_fault_line(
                s.skip(1),
                delim,
                bs,
                false,
                if s[0] == 0x0A {
                    line + 1
                } else {
                    line
                },
            )
        }
    }
}

/// Scan for the first quote fault, reporting its 1-based line.
pub fn quote_fault_line(input: &[u8], delimiter: u8, escape: EscapeMode) -> (r: Option<u64>)
    requires
        input@.len() < u64::MAX,
    ensures
        (r is None) == spec_quotes_valid(input@, delimiter, escape == EscapeMode::Backslash),
        r matches Some(l) ==> Some(l as int) == spec_quote_fault_line(
            input@,
            delimiter,
            escape == EscapeMode::Backslash,
            false,
            1,
        ),
{
    let bs = match escape {
        EscapeMode::Rfc => false,
        EscapeMode::Backslash => true,
    };
    let n = input.len();
    let mut i: usize = 0;
    let mut line: u64 = 1;
    let mut in_quotes = false;
    proof {
        assert(input@.skip(0) =~= input@);
    }
    while i < n
        invariant
            0 <= i <= n,
            n == input@.len(),
            n < u64::MAX,
            line as int <= i + 1,
            bs == (escape == EscapeMode::Backslash),
            spec_quotes_valid(input@, delimiter, bs) == spec_quotes_valid_from(
                input@.skip(i as int),
                delimiter,
                bs,
                in_quotes,
            ),
            spec_quote_fault_line(input@, delimiter, bs, false, 1) == spec_quote_fault_line(
                input@.skip(i as int),
                delimiter,
                bs,
                in_quotes,
                line as int,
            ),
        decreases n - i,
    {
        let ghost rest = input@.skip(i as int);
        proof {
            assert(rest[0] == input@[i as int]);
            assert(rest.drop_first() =~= input@.skip(i + 1));
            if rest.len() >= 2 {
                assert(rest[1] == input@[i + 1]);
                assert(rest.skip(2) =~= input@.skip(i + 2));
            }
            assert(rest.skip(1) =~= input@.skip(i + 1));
        }
        let b = input[i];
        if in_quotes {
            if bs && b == 0x5C && i + 1 < n && input[i + 1] == 0x22 {
                i = i + 2;
            } else if b == 0x22 {
                if i + 1 < n && input[i + 1] == 0x22 {
                    i = i + 2;
                } else if i + 1 < n {
                    let nxt = input[i + 1];
                    if nxt == delimiter || nxt == 0x0A || nxt == 0x0D {
                        in_quotes = false;
                        i = i + 1;
                    } else {
                        return Some(line);
                    }
                } else {
                    return None;
                }
            } else {
                if b == 0x0A {
                    line = line + 1;
                }
                i = i + 1;
            }
        } else {
            if b == 0x22 {
                in_quotes = true;
            } else if b == 0x0A {
                line = line + 1;
            }
            i = i + 1;
        }
    }
    proof {
        assert(input@.skip(n as int) =~= Seq::<u8>::empty());
    }
    if in_quotes {
        Some(line)
    } else {
        None
    }
}

/// Detect which escape mode parses the input without quote errors: RFC
/// first, then backslash; if both fail the error names the RFC attempt,
/// carrying the line of its first quote fault.
pub fn detect_escape_mode(input: &[u8], delimiter: u8) -> (r: Result<EscapeMode, CsvParseError>)
    requires
        input@.len() < u64::MAX,
    ensures
        spec_quotes_valid(input@, delimiter, false) ==> r == Result::<
            EscapeMode,
            CsvParseError,
        >::Ok(EscapeMode::Rfc),
        !spec_quotes_valid(input@, delimiter, false) && spec_quotes_valid(input@, delimiter, true)
            ==> r == Result::<EscapeMode, CsvParseError>::Ok(EscapeMode::Backslash),
        !spec_quotes_valid(input@, delimiter, false) && !spec_quotes_valid(input@, delimiter, true)
            ==> (r matches Err(e) && e.escape_mode == EscapeMode::Rfc && e.record is None && (
        e.line matches Some(l) && Some(l as int) == spec_quote_fault_line(
            input@,
            delimiter,
            false,
            false,
            1,
        ))),
{
    match quote_fault_line(input, delimiter, EscapeMode::Rfc) {
        None => Ok(EscapeMode::Rfc),
        Some(l) => {
            if validate_quotes(input, delimiter, EscapeMode::Backslash) {
                Ok(EscapeMode::Backslash)
            } else {
                Err(CsvParseError { escape_mode: EscapeMode::Rfc, record: None, line: Some(l) })
            }
        },
    }
}

} // verus!
