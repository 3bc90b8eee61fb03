//! Export transform: the presentation table as delimited text, with a fixed
//! header row and one data row per table row, fields taken verbatim. A field
//! holding the delimiter, a quote or a line break is quoted, with embedded
//! quotes doubled. A parsing specification describes how a standard reader
//! re-splits such text, and the round-trip law proves that re-splitting the
//! exported text yields exactly the original fields.

use vstd::prelude::*;

use crate::rows::RowView;
use crate::rows::TableRow;
use crate::rows::table_view;
use crate::strutil::contains_char;
use crate::strutil::push_char;
use vstd::string::StringExecFns;

verus! {

/// The four fields of a row in export order.
pub open spec fn row_fields(r: RowView) -> Seq<Seq<char>> {
    seq![r.display_predicate, r.native_predicate, r.display_value, r.native_value]
}

/// The fixed header record.
pub open spec fn header_fields() -> Seq<Seq<char>> {
    seq!["Display Predicate"@, "Native Predicate"@, "Display Value"@, "Native Value"@]
}

/// Whether a field must be quoted: it holds the delimiter, a quote character
/// or a line break.
pub open spec fn needs_quoting(f: Seq<char>) -> bool {
    f.contains(',') || f.contains('"') || f.contains('\n') || f.contains('\r')
}

/// The field with every embedded quote doubled.
pub open spec fn escape_quotes(f: Seq<char>) -> Seq<char>
    decreases f.len(),
{
    if f.len() == 0 {
        f
    } else {
        escape_quotes(f.drop_last()) + (if f.last() == '"' {
            seq!['"', '"']
        } else {
            seq![f.last()]
        })
    }
}

/// The encoded form of one field.
pub open spec fn encode_field(f: Seq<char>) -> Seq<char> {
    if needs_quoting(f) {
        seq!['"'] + escape_quotes(f) + seq!['"']
    } else {
        f
    }
}

/// One record: its fields encoded, joined with commas, ended by a newline.
pub open spec fn encode_record(fs: Seq<Seq<char>>) -> Seq<char>
    decreases fs.len(),
{
    if fs.len() <= 1 {
        (if fs.len() == 0 {
            Seq::empty()
        } else {
            encode_field(fs[0])
        }) + seq!['\n']
    } else {
        encode_field(fs[0]) + seq![','] + encode_record(fs.skip(1))
    }
}

/// A sequence of records, encoded one after the other.
pub open spec fn encode_records(rs: Seq<Seq<Seq<char>>>) -> Seq<char>
    decreases rs.len(),
{
    if rs.len() == 0 {
        Seq::empty()
    } else {
        encode_record(rs[0]) + encode_records(rs.skip(1))
    }
}

/// The records of an exported table: the header, then the fields of each row.
pub open spec fn table_records(rows: Seq<RowView>) -> Seq<Seq<Seq<char>>> {
    seq![header_fields()] + rows.map_values(|r: RowView| row_fields(r))
}

/// The exported delimited text of a table.
pub open spec fn export_text(rows: Seq<RowView>) -> Seq<char> {
    encode_records(table_records(rows))
}

/// Appending a record encodes after the earlier records.
proof fn lemma_encode_records_push(rs: Seq<Seq<Seq<char>>>, r: Seq<Seq<char>>)
    ensures
        encode_records(rs.push(r)) == encode_records(rs) + encode_record(r),
    decreases rs.len(),
{
    if rs.len() == 0 {
        assert(rs.push(r)[0] == r);
        assert(rs.push(r).skip(1) =~= Seq::<Seq<Seq<char>>>::empty());
        assert(encode_records(Seq::<Seq<Seq<char>>>::empty()) == Seq::<char>::empty());
        assert(encode_records(rs.push(r)) =~= encode_records(rs) + encode_record(r));
    } else {
        assert(rs.push(r)[0] == rs[0]);
        assert(rs.push(r).skip(1) =~= rs.skip(1).push(r));
        lemma_encode_records_push(rs.skip(1), r);
        assert(encode_records(rs.push(r)) =~= encode_records(rs) + encode_record(r));
    }
}

/// Writes one encoded field at the end of `out`.
fn write_field(out: &mut String, f: &str)
    ensures
        final(out)@ == old(out)@ + encode_field(f@),
{
    let quoted = contains_char(f, ',') || contains_char(f, '"') || contains_char(f, '\n')
        || contains_char(f, '\r');
    if !quoted {
        out.append(f);
    } else {
        let ghost base = out@;
        push_char(out, '"');
        let len = f.unicode_len();
        let mut i: usize = 0;
        while i < len
            invariant
                i <= len,
                len == f@.len(),
                out@ == base.push('"') + escape_quotes(f@.take(i as int)),
            decreases len - i,
        {
            let c = f.get_char(i);
            push_char(out, c);
            if c == '"' {
                push_char(out, '"');
            }
            proof {
                let before = f@.take(i as int);
                let after = f@.take(i + 1 as int);
                assert(after.drop_last() =~= before);
                assert(after.last() == f@[i as int]);
                if f@[i as int] == '"' {
                    assert(escape_quotes(before) + seq!['"', '"'] =~= escape_quotes(
                        before,
                    ).push('"').push('"'));
                } else {
                    assert(escape_quotes(before) + seq![f@[i as int]] =~= escape_quotes(
                        before,
                    ).push(f@[i as int]));
                }
                assert(out@ =~= base.push('"') + escape_quotes(after));
            }
            i = i + 1;
        }
        push_char(out, '"');
        proof {
            assert(f@.take(len as int) =~= f@);
            assert(out@ =~= base + (seq!['"'] + escape_quotes(f@) + seq!['"']));
        }
    }
}

/// Writes one encoded record — four fields and the final newline — at the end
/// of `out`.
fn write_record(out: &mut String, a: &str, b: &str, c: &str, d: &str)
    ensures
        final(out)@ == old(out)@ + encode_record(seq![a@, b@, c@, d@]),
{
    let ghost base = out@;
    let ghost fs = seq![a@, b@, c@, d@];
    write_field(out, a);
    push_char(out, ',');
    write_field(out, b);
    push_char(out, ',');
    write_field(out, c);
    push_char(out, ',');
    write_field(out, d);
    push_char(out, '\n');
    proof {
        let f1 = fs.skip(1);
        let f2 = fs.skip(2);
        let f3 = fs.skip(3);
        assert(f1 =~= seq![b@, c@, d@]);
        assert(f1.skip(1) =~= f2);
        assert(f2 =~= seq![c@, d@]);
        assert(f2.skip(1) =~= f3);
        assert(f3 =~= seq![d@]);
        assert(encode_record(f3) == encode_field(d@) + seq!['\n']);
        assert(encode_record(f2) == encode_field(c@) + seq![','] + encode_record(f3));
        assert(encode_record(f1) == encode_field(b@) + seq![','] + encode_record(f2));
        assert(encode_record(fs) == encode_field(a@) + seq![','] + encode_record(f1));
        assert(out@ =~= base + encode_record(fs));
    }
}

/// The table as delimited text: the fixed header row, then one row per table
/// row, fields verbatim apart from the quoting the format itself requires.
/// The synthetic identifier row is exported like any other row.
pub fn to_delimited_text(rows: &Vec<TableRow>) -> (r: String)
    ensures
        r@ == export_text(table_view(rows@)),
{
    let ghost recs = table_records(table_view(rows@));
    let mut out = String::new();
    write_record(
        &mut out,
        "Display Predicate",
        "Native Predicate",
        "Display Value",
        "Native Value",
    );
    proof {
        assert(seq!["Display Predicate"@, "Native Predicate"@, "Display Value"@, "Native Value"@]
            =~= header_fields());
        assert(recs.take(1) =~= seq![header_fields()]);
        assert(encode_records(Seq::<Seq<Seq<char>>>::empty()) == Seq::<char>::empty());
        lemma_encode_records_push(Seq::<Seq<Seq<char>>>::empty(), header_fields());
        assert(Seq::<Seq<Seq<char>>>::empty().push(header_fields()) =~= recs.take(1));
        assert(out@ =~= encode_records(recs.take(1)));
    }
    let mut i: usize = 0;
    while i < rows.len()
        invariant
            i <= rows@.len(),
            recs == table_records(table_view(rows@)),
            recs.len() == 1 + rows@.len(),
            forall|j: int| 0 <= j < rows@.len() ==> recs[j + 1] == row_fields(rows@[j]@),
            out@ == encode_records(recs.take(i + 1 as int)),
        decreases rows@.len() - i,
    {
        let row = &rows[i];
        write_record(
            &mut out,
            row.display_predicate.as_str(),
            row.native_predicate.as_str(),
            row.display_value.as_str(),
            row.native_value.as_str(),
        );
        proof {
            assert(seq![
                row.display_predicate@,
                row.native_predicate@,
                row.display_value@,
                row.native_value@,
            ] =~= row_fields(rows@[i as int]@));
            assert(recs.take(i + 2 as int) =~= recs.take(i + 1 as int).push(
                recs[i + 1 as int],
            ));
            lemma_encode_records_push(recs.take(i + 1 as int), recs[i + 1 as int]);
        }
        i = i + 1;
    }
    proof {
        assert(recs.take(rows@.len() + 1 as int) =~= recs);
    }
    out
}

/// How a reader takes one unquoted field: everything up to the next delimiter
/// or line break.
pub open spec fn take_unquoted(s: Seq<char>) -> (Seq<char>, Seq<char>)
    decreases s.len(),
{
    if s.len() == 0 {
        (Seq::empty(), Seq::empty())
    } else if s[0] == ',' || s[0] == '\n' {
        (Seq::empty(), s)
    } else {
        let fr = take_unquoted(s.skip(1));
        (seq![s[0]] + fr.0, fr.1)
    }
}

/// How a reader takes the remainder of a quoted field (the opening quote
/// already consumed): a doubled quote stands for one quote character, a
/// single quote closes the field, an unterminated field is an error.
pub open spec fn take_quoted(s: Seq<char>) -> Option<(Seq<char>, Seq<char>)>
    decreases s.len(),
{
    if s.len() == 0 {
        None
    } else if s[0] == '"' {
        if s.len() >= 2 && s[1] == '"' {
            match take_quoted(s.skip(2)) {
                Some(fr) => Some((seq!['"'] + fr.0, fr.1)),
                None => None,
            }
        } else {
            Some((Seq::empty(), s.skip(1)))
        }
    } else {
        match take_quoted(s.skip(1)) {
            Some(fr) => Some((seq![s[0]] + fr.0, fr.1)),
            None => None,
        }
    }
}

/// How a reader takes one field: quoted when it opens with a quote, plain
/// otherwise.
pub open spec fn take_field(s: Seq<char>) -> Option<(Seq<char>, Seq<char>)> {
    if s.len() > 0 && s[0] == '"' {
        take_quoted(s.skip(1))
    } else {
        Some(take_unquoted(s))
    }
}

/// How a reader takes one record of `k` fields: fields separated by commas,
/// the last ended by a line break.
pub open spec fn take_fields(s: Seq<char>, k: nat) -> Option<(Seq<Seq<char>>, Seq<char>)>
    decreases k,
{
    if k <= 1 {
        match take_field(s) {
            Some(fr) => if fr.1.len() > 0 && fr.1[0] == '\n' {
                Some((seq![fr.0], fr.1.skip(1)))
            } else {
                None
            },
            None => None,
        }
    } else {
        match take_field(s) {
            Some(fr) => if fr.1.len() > 0 && fr.1[0] == ',' {
                match take_fields(fr.1.skip(1), (k - 1) as nat) {
                    Some(gr) => Some((seq![fr.0] + gr.0, gr.1)),
                    None => None,
                }
            } else {
                None
            },
            None => None,
        }
    }
}

/// How a reader splits a whole table: four-field records until the text is
/// exhausted.
pub open spec fn parse_table(s: Seq<char>) -> Option<Seq<Seq<Seq<char>>>>
    decreases s.len(),
{
    if s.len() == 0 {
        Some(Seq::empty())
    } else {
        match take_fields(s, 4) {
            Some(rr) => if rr.1.len() < s.len() {
                match parse_table(rr.1) {
                    Some(rs) => Some(seq![rr.0] + rs),
                    None => None,
                }
            } else {
                None
            },
            None => None,
        }
    }
}

/// The escaped form of a field, decomposed at its first character.
proof fn lemma_escape_first(f: Seq<char>)
    requires
        f.len() > 0,
    ensures
        escape_quotes(f) == (if f[0] == '"' {
            seq!['"', '"']
        } else {
            seq![f[0]]
        }) + escape_quotes(f.skip(1)),
    decreases f.len(),
{
    let chunk = if f[0] == '"' {
        seq!['"', '"']
    } else {
        seq![f[0]]
    };
    if f.len() == 1 {
        assert(f.drop_last() =~= Seq::<char>::empty());
        assert(f.skip(1) =~= Seq::<char>::empty());
        assert(f.last() == f[0]);
        assert(escape_quotes(f) =~= chunk + escape_quotes(f.skip(1)));
    } else {
        let u = f.drop_last();
        lemma_escape_first(u);
        assert(u[0] == f[0]);
        assert(u.skip(1) =~= f.skip(1).drop_last());
        assert(f.skip(1).last() == f.last());
        assert(escape_quotes(f) =~= chunk + escape_quotes(f.skip(1)));
    }
}

/// A plain field followed by a delimiter or line break is taken back whole.
proof fn lemma_take_unquoted_plain(f: Seq<char>, rest: Seq<char>)
    requires
        !f.contains(','),
        !f.contains('\n'),
        rest.len() > 0,
        rest[0] == ',' || rest[0] == '\n',
    ensures
        take_unquoted(f + rest) == (f, rest),
    decreases f.len(),
{
    let s = f + rest;
    if f.len() == 0 {
        assert(s =~= rest);
        assert(take_unquoted(s).0 =~= f);
    } else {
        assert(s[0] == f[0]);
        assert(f[0] != ',' && f[0] != '\n');
        assert(forall|j: int| 0 <= j < f.skip(1).len() ==> f.skip(1)[j] == f[j + 1]);
        assert(!f.skip(1).contains(','));
        assert(!f.skip(1).contains('\n'));
        assert(s.skip(1) =~= f.skip(1) + rest);
        lemma_take_unquoted_plain(f.skip(1), rest);
        assert(seq![f[0]] + f.skip(1) =~= f);
    }
}

/// An escaped field, its closing quote and what follows are taken back whole.
proof fn lemma_take_quoted_escaped(f: Seq<char>, rest: Seq<char>)
    requires
        rest.len() > 0,
        rest[0] == ',' || rest[0] == '\n',
    ensures
        take_quoted(escape_quotes(f) + seq!['"'] + rest) == Some((f, rest)),
    decreases f.len(),
{
    let s = escape_quotes(f) + seq!['"'] + rest;
    if f.len() == 0 {
        assert(s =~= seq!['"'] + rest);
        assert(s[0] == '"');
        assert(s.len() >= 2 && s[1] == rest[0]);
        assert(s[1] != '"');
        assert(s.skip(1) =~= rest);
        assert(take_quoted(s) == Some((Seq::<char>::empty(), rest)));
        assert(Seq::<char>::empty() =~= f);
    } else {
        lemma_escape_first(f);
        lemma_take_quoted_escaped(f.skip(1), rest);
        if f[0] == '"' {
            assert(s =~= seq!['"', '"'] + (escape_quotes(f.skip(1)) + seq!['"'] + rest));
            assert(s[0] == '"' && s.len() >= 2 && s[1] == '"');
            assert(s.skip(2) =~= escape_quotes(f.skip(1)) + seq!['"'] + rest);
            assert(seq!['"'] + f.skip(1) =~= f);
        } else {
            assert(s =~= seq![f[0]] + (escape_quotes(f.skip(1)) + seq!['"'] + rest));
            assert(s[0] == f[0] && f[0] != '"');
            assert(s.skip(1) =~= escape_quotes(f.skip(1)) + seq!['"'] + rest);
            assert(seq![f[0]] + f.skip(1) =~= f);
        }
    }
}

/// An encoded field followed by a delimiter or line break is taken back whole.
proof fn lemma_take_field_encoded(f: Seq<char>, rest: Seq<char>)
    requires
        rest.len() > 0,
        rest[0] == ',' || rest[0] == '\n',
    ensures
        take_field(encode_field(f) + rest) == Some((f, rest)),
{
    let s = encode_field(f) + rest;
    if needs_quoting(f) {
        assert(s =~= seq!['"'] + (escape_quotes(f) + seq!['"'] + rest));
        assert(s[0] == '"');
        assert(s.skip(1) =~= escape_quotes(f) + seq!['"'] + rest);
        lemma_take_quoted_escaped(f, rest);
    } else {
        assert(s =~= f + rest);
        if f.len() == 0 {
            assert(s =~= rest);
            assert(s[0] != '"');
        } else {
            assert(s[0] == f[0]);
            assert(f[0] != '"');
        }
        lemma_take_unquoted_plain(f, rest);
    }
}

/// An encoded record followed by anything is taken back as its fields, with
/// exactly the record's text consumed.
proof fn lemma_take_fields_encoded(fs: Seq<Seq<char>>, rest: Seq<char>)
    requires
        fs.len() >= 1,
    ensures
        take_fields(encode_record(fs) + rest, fs.len() as nat) == Some((fs, rest)),
    decreases fs.len(),
{
    let s = encode_record(fs) + rest;
    if fs.len() == 1 {
        assert(s =~= encode_field(fs[0]) + (seq!['\n'] + rest));
        lemma_take_field_encoded(fs[0], seq!['\n'] + rest);
        assert((seq!['\n'] + rest).skip(1) =~= rest);
        assert(seq![fs[0]] =~= fs);
    } else {
        let tail = seq![','] + encode_record(fs.skip(1)) + rest;
        assert(s =~= encode_field(fs[0]) + tail);
        lemma_take_field_encoded(fs[0], tail);
        assert(tail.skip(1) =~= encode_record(fs.skip(1)) + rest);
        lemma_take_fields_encoded(fs.skip(1), rest);
        assert(seq![fs[0]] + fs.skip(1) =~= fs);
    }
}

/// An encoded record is never empty.
proof fn lemma_encode_record_len(fs: Seq<Seq<char>>)
    ensures
        encode_record(fs).len() >= 1,
    decreases fs.len(),
{
    if fs.len() > 1 {
        lemma_encode_record_len(fs.skip(1));
    }
}

/// Encoded four-field records are split back into exactly those records.
proof fn lemma_parse_encoded(rs: Seq<Seq<Seq<char>>>)
    requires
        forall|i: int| 0 <= i < rs.len() ==> #[trigger] rs[i].len() == 4,
    ensures
        parse_table(encode_records(rs)) == Some(rs),
    decreases rs.len(),
{
    if rs.len() == 0 {
        assert(parse_table(encode_records(rs)) == Some(Seq::<Seq<Seq<char>>>::empty()));
        assert(Seq::<Seq<Seq<char>>>::empty() =~= rs);
    } else {
        let s = encode_records(rs);
        let tail = encode_records(rs.skip(1));
        assert(s == encode_record(rs[0]) + tail);
        lemma_encode_record_len(rs[0]);
        assert(s.len() > 0);
        assert(rs[0].len() == 4);
        lemma_take_fields_encoded(rs[0], tail);
        assert(take_fields(s, 4) == Some((rs[0], tail)));
        assert(tail.len() < s.len());
        assert(forall|i: int| 0 <= i < rs.skip(1).len() ==> #[trigger] rs.skip(1)[i].len() == 4);
        lemma_parse_encoded(rs.skip(1));
        assert(seq![rs[0]] + rs.skip(1) =~= rs);
    }
}

/// Round trip: re-splitting the exported delimited text yields the header
/// record and then exactly the four fields of every row, including rows whose
/// native value holds the delimiter, a quote or a line break.
pub proof fn lemma_export_round_trip(rows: Seq<RowView>)
    ensures
        parse_table(export_text(rows)) == Some(table_records(rows)),
{
    let recs = table_records(rows);
    assert forall|i: int| 0 <= i < recs.len() implies #[trigger] recs[i].len() == 4 by {
        if i == 0 {
            assert(recs[i] == header_fields());
        } else {
            assert(recs[i] == row_fields(rows[i - 1]));
        }
    }
    lemma_parse_encoded(recs);
}

} // verus!
