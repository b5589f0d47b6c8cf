//! The format's guarantees, stated and proved once and for all over the spec
//! model: how many records a successful parse yields, how the `secure`,
//! `expiration` and HttpOnly markings of a record follow from the source
//! tokens, and when a line is rejected with which error.

use crate::error::SpecParseError;
use crate::num::{token_int, valid_i64_token};
use crate::parser::{classify, line_records, parse_fields, parse_lines, parse_spec};
use crate::record::SpecRecord;
use crate::text::{split_on, trim_of};
use vstd::prelude::*;

verus! {

/// How many of `lines` are data lines: non-blank after trimming and not
/// plain comments (an HttpOnly-marked line counts as data).
pub open spec fn data_line_count(lines: Seq<Seq<char>>) -> int
    decreases lines.len(),
{
    if lines.len() == 0 {
        0
    } else {
        (if trim_of(lines[0]).len() == 0 {
            0int
        } else {
            match classify(trim_of(lines[0])) {
                None => 0int,
                Some(_) => 1int,
            }
        }) + data_line_count(lines.drop_first())
    }
}

/// Law: a successful parse yields exactly one record per data line; blank
/// and comment lines contribute nothing.
pub proof fn lemma_record_count(lines: Seq<Seq<char>>)
    requires
        parse_lines(lines) is Ok,
    ensures
        parse_lines(lines)->Ok_0.len() == data_line_count(lines),
    decreases lines.len(),
{
    if lines.len() > 0 {
        lemma_record_count(lines.drop_first());
    }
}

/// Law: when parsing a whole text succeeds, the jar's record count equals
/// the number of data lines among the text's `'\n'`-separated lines.
pub proof fn lemma_parse_record_count(s: Seq<char>)
    requires
        parse_spec(s) is Ok,
    ensures
        parse_spec(s)->Ok_0.len() == data_line_count(split_on(s, '\n')),
{
    lemma_record_count(split_on(s, '\n'));
}

/// Law: a parsed record's `secure` is `true` iff the source `secure` token
/// was exactly `TRUE`, and `false` iff it was exactly `FALSE`.
pub proof fn lemma_secure_from_token(fields: Seq<Seq<char>>, http_only: bool)
    requires
        parse_fields(fields, http_only) is Ok,
    ensures
        parse_fields(fields, http_only)->Ok_0.secure <==> fields[3] == "TRUE"@,
        !parse_fields(fields, http_only)->Ok_0.secure <==> fields[3] == "FALSE"@,
{
    reveal_strlit("TRUE");
    reveal_strlit("FALSE");
    assert("TRUE"@.len() != "FALSE"@.len());
}

/// Law: a `secure` token other than exactly `TRUE` or `FALSE` is never
/// coerced to a boolean: the line fails with `InvalidValue` carrying it.
pub proof fn lemma_invalid_secure_token(fields: Seq<Seq<char>>, http_only: bool)
    requires
        fields.len() >= 4,
        fields[3] != "TRUE"@,
        fields[3] != "FALSE"@,
    ensures
        parse_fields(fields, http_only) == Err::<SpecRecord, SpecParseError>(
            SpecParseError::InvalidValue(fields[3]),
        ),
{
}

/// Law: an `expiration` field denoting zero yields a session cookie (no
/// expiry); any other valid integer yields exactly that value as the
/// absolute Unix-time expiry.
pub proof fn lemma_expiration_from_token(fields: Seq<Seq<char>>, http_only: bool)
    requires
        parse_fields(fields, http_only) is Ok,
    ensures
        valid_i64_token(fields[4]),
        token_int(fields[4]) == 0 ==> parse_fields(fields, http_only)->Ok_0.expiration is None,
        token_int(fields[4]) != 0 ==> parse_fields(fields, http_only)->Ok_0.expiration == Some(
            token_int(fields[4]),
        ),
{
}

/// Law: an `expiration` token that is not a valid signed 64-bit integer
/// fails the line with `InvalidValue` carrying it.
pub proof fn lemma_invalid_expiration_token(fields: Seq<Seq<char>>, http_only: bool)
    requires
        fields.len() >= 5,
        fields[3] == "TRUE"@ || fields[3] == "FALSE"@,
        !valid_i64_token(fields[4]),
    ensures
        parse_fields(fields, http_only) == Err::<SpecRecord, SpecParseError>(
            SpecParseError::InvalidValue(fields[4]),
        ),
{
}

/// Law: a line beginning with the `#HttpOnly_` marker is classified as a
/// data line whose text is the remainder after the marker.
pub proof fn lemma_http_only_marker(l: Seq<char>)
    requires
        l.len() >= 10,
        l.subrange(0, 10) == "#HttpOnly_"@,
    ensures
        classify(l) == Some((true, l.subrange(10, l.len() as int))),
{
}

/// Law: a marker-stripped HttpOnly line parses exactly as the same text
/// would as a plain data line: same success, same error, same record fields,
/// except that `http_only` is set.
pub proof fn lemma_http_only_same_fields(fields: Seq<Seq<char>>)
    ensures
        parse_fields(fields, true) is Ok <==> parse_fields(fields, false) is Ok,
        parse_fields(fields, true) is Err ==> parse_fields(fields, true) == parse_fields(
            fields,
            false,
        ),
        parse_fields(fields, true) matches Ok(r) ==> r.http_only && parse_fields(fields, false)
            == Ok::<SpecRecord, SpecParseError>(SpecRecord { http_only: false, ..r }),
{
}

/// Law: a line that begins with `#` but not with the `#HttpOnly_` marker is
/// a comment: it yields no record and no error.
pub proof fn lemma_comment_line(l: Seq<char>)
    requires
        trim_of(l).len() >= 1,
        trim_of(l)[0] == '#',
        !(trim_of(l).len() >= 10 && trim_of(l).subrange(0, 10) == "#HttpOnly_"@),
    ensures
        line_records(l) == Ok::<Option<SpecRecord>, SpecParseError>(None),
{
}

/// Law: a data line with fewer than the seven required fields, none of the
/// present ones malformed, is rejected with `TooFewFields`. (When a present
/// `secure` or `expiration` field is itself malformed, its `InvalidValue`
/// wins instead, since fields are validated left to right.)
pub proof fn lemma_too_few_fields(fields: Seq<Seq<char>>, http_only: bool)
    requires
        fields.len() < 7,
        fields.len() >= 4 ==> fields[3] == "TRUE"@ || fields[3] == "FALSE"@,
        fields.len() >= 5 ==> valid_i64_token(fields[4]),
    ensures
        parse_fields(fields, http_only) == Err::<SpecRecord, SpecParseError>(
            SpecParseError::TooFewFields,
        ),
{
}

/// Law: the first erroneous line aborts the whole parse with its error,
/// however many well-formed lines precede or follow it.
pub proof fn lemma_first_error_aborts(lines: Seq<Seq<char>>, i: int)
    requires
        0 <= i < lines.len(),
        line_records(lines[i]) is Err,
        forall|j: int| 0 <= j < i ==> #[trigger] line_records(lines[j]) is Ok,
    ensures
        parse_lines(lines) == Err::<Seq<SpecRecord>, SpecParseError>(
            line_records(lines[i])->Err_0,
        ),
    decreases i,
{
    if i == 0 {
    } else {
        assert(line_records(lines[0]) is Ok);
        lemma_first_error_aborts(lines.drop_first(), i - 1);
    }
}

} // verus!
