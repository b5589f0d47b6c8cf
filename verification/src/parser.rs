//! The parser proper. The spec side defines, over `Seq<char>`, what a whole
//! input denotes: lines are split on `'\n'` and trimmed, blank lines and `#`
//! comments are dropped, a `#HttpOnly_` prefix marks an HttpOnly data line,
//! and each data line's tab-separated fields are validated in order. The
//! executable parser is proved to return exactly that denotation.

use crate::error::{Error, ParseError, SpecError, SpecParseError};
use crate::num::{parse_i64_range, token_int, valid_i64_token};
use crate::record::{CookieJar, CookieRecord, SpecRecord};
use crate::text::{chars_of, range_eq_str, split_on, split_ranges, trim_of, trim_range};
use vstd::prelude::*;
use vstd::string::StrSliceExecFns;

verus! {

/// Classifies one trimmed, non-empty line: `None` for a plain comment,
/// otherwise the HttpOnly flag and the text to tokenize (the line itself, or
/// what follows the `#HttpOnly_` marker).
pub open spec fn classify(l: Seq<char>) -> Option<(bool, Seq<char>)> {
    if l.len() >= 10 && l.subrange(0, 10) == "#HttpOnly_"@ {
        Some((true, l.subrange(10, l.len() as int)))
    } else if l.len() >= 1 && l[0] == '#' {
        None
    } else {
        Some((false, l))
    }
}

/// Validates the tab-separated fields of one data line, in order: `domain`,
/// a legacy flag whose value is ignored, `path`, `secure` (exactly `TRUE` or
/// `FALSE`), `expiration` (a base-10 signed 64-bit integer, `0` meaning a
/// session cookie), `name`, `value`; fields past the seventh are ignored.
/// A missing field is `TooFewFields`; a present but malformed `secure` or
/// `expiration` is `InvalidValue` carrying the token.
pub open spec fn parse_fields(fields: Seq<Seq<char>>, http_only: bool) -> Result<
    SpecRecord,
    SpecParseError,
> {
    if fields.len() < 4 {
        Err(SpecParseError::TooFewFields)
    } else if fields[3] != "TRUE"@ && fields[3] != "FALSE"@ {
        Err(SpecParseError::InvalidValue(fields[3]))
    } else if fields.len() < 5 {
        Err(SpecParseError::TooFewFields)
    } else if !valid_i64_token(fields[4]) {
        Err(SpecParseError::InvalidValue(fields[4]))
    } else if fields.len() < 7 {
        Err(SpecParseError::TooFewFields)
    } else {
        Ok(
            SpecRecord {
                domain: fields[0],
                path: fields[2],
                secure: fields[3] == "TRUE"@,
                http_only: http_only,
                expiration: if token_int(fields[4]) == 0 {
                    None
                } else {
                    Some(token_int(fields[4]))
                },
                name: fields[5],
                value: fields[6],
            },
        )
    }
}

/// What one raw line contributes: nothing for a blank or comment line, one
/// record for a well-formed data line, or the line's first error.
pub open spec fn line_records(l: Seq<char>) -> Result<Option<SpecRecord>, SpecParseError> {
    let t = trim_of(l);
    if t.len() == 0 {
        Ok(None)
    } else {
        match classify(t) {
            None => Ok(None),
            Some((http_only, body)) => match parse_fields(split_on(body, '\t'), http_only) {
                Ok(r) => Ok(Some(r)),
                Err(e) => Err(e),
            },
        }
    }
}

/// The records of a sequence of raw lines, in source order; the first
/// erroneous line's error aborts everything after it.
pub open spec fn parse_lines(lines: Seq<Seq<char>>) -> Result<Seq<SpecRecord>, SpecParseError>
    decreases lines.len(),
{
    if lines.len() == 0 {
        Ok(Seq::empty())
    } else {
        match line_records(lines[0]) {
            Err(e) => Err(e),
            Ok(opt) => match parse_lines(lines.drop_first()) {
                Err(e) => Err(e),
                Ok(rest) => Ok(
                    match opt {
                        Some(r) => seq![r] + rest,
                        None => rest,
                    },
                ),
            },
        }
    }
}

/// What a whole input text denotes: the records of its `'\n'`-separated
/// lines, or the first line's error.
pub open spec fn parse_spec(s: Seq<char>) -> Result<Seq<SpecRecord>, SpecParseError> {
    parse_lines(split_on(s, '\n'))
}

/// Tokenizes and validates the data-line text `cs[a..b]` (the line after
/// trimming and marker removal), returning the record [`parse_fields`]
/// assigns to it, or its error.
fn parse_data_line(s: &str, cs: &Vec<char>, a: usize, b: usize, http_only: bool) -> (r: Result<
    CookieRecord,
    ParseError,
>)
    requires
        cs@ == s@,
        a <= b <= cs@.len(),
    ensures
        match parse_fields(split_on(cs@.subrange(a as int, b as int), '\t'), http_only) {
            Ok(m) => r matches Ok(c) && c@ == m,
            Err(e) => r matches Err(p) && p@ == e,
        },
{
    let ghost fields = split_on(cs@.subrange(a as int, b as int), '\t');
    let fr = split_ranges(cs, a, b, '\t');
    proof {
        assert(fields =~= fr@.map_values(
            |p: (usize, usize)| cs@.subrange(p.0 as int, p.1 as int),
        ));
        assert(fields.len() == fr@.len());
    }
    if fr.len() < 4 {
        return Err(ParseError::TooFewFields);
    }
    let p3 = fr[3];
    proof {
        assert(fields[3] == cs@.subrange(p3.0 as int, p3.1 as int));
    }
    let is_true = range_eq_str(cs, p3.0, p3.1, "TRUE");
    let is_false = range_eq_str(cs, p3.0, p3.1, "FALSE");
    if !is_true && !is_false {
        let token = s.substring_char(p3.0, p3.1).to_owned();
        return Err(ParseError::InvalidValue(token));
    }
    if fr.len() < 5 {
        return Err(ParseError::TooFewFields);
    }
    let p4 = fr[4];
    proof {
        assert(fields[4] == cs@.subrange(p4.0 as int, p4.1 as int));
    }
    let expiration: i64 = match parse_i64_range(cs, p4.0, p4.1) {
        Some(v) => v,
        None => {
            let token = s.substring_char(p4.0, p4.1).to_owned();
            return Err(ParseError::InvalidValue(token));
        },
    };
    if fr.len() < 7 {
        return Err(ParseError::TooFewFields);
    }
    let p0 = fr[0];
    let p2 = fr[2];
    let p5 = fr[5];
    let p6 = fr[6];
    proof {
        assert(fields[0] == cs@.subrange(p0.0 as int, p0.1 as int));
        assert(fields[2] == cs@.subrange(p2.0 as int, p2.1 as int));
        assert(fields[5] == cs@.subrange(p5.0 as int, p5.1 as int));
        assert(fields[6] == cs@.subrange(p6.0 as int, p6.1 as int));
    }
    let rec = CookieRecord {
        domain: s.substring_char(p0.0, p0.1).to_owned(),
        path: s.substring_char(p2.0, p2.1).to_owned(),
        secure: is_true,
        http_only,
        expiration: if expiration == 0 {
            None
        } else {
            Some(expiration)
        },
        name: s.substring_char(p5.0, p5.1).to_owned(),
        value: s.substring_char(p6.0, p6.1).to_owned(),
    };
    Ok(rec)
}

/// Builds a [`CookieJar`] incrementally: created empty (or around an
/// existing jar), extended by each successful [`parse`](Self::parse), and
/// handed out by [`finish`](Self::finish). Its view is the jar's contents.
pub struct CookieJarBuilder {
    jar: CookieJar,
}

impl View for CookieJarBuilder {
    type V = Seq<SpecRecord>;

    closed spec fn view(&self) -> Seq<SpecRecord> {
        self.jar@
    }
}

impl CookieJarBuilder {
    /// A builder around an empty jar.
    pub fn new() -> (r: Self)
        ensures
            r@ =~= Seq::<SpecRecord>::empty(),
    {
        CookieJarBuilder { jar: CookieJar::new() }
    }

    /// A builder around an existing jar; parsed records are appended to it.
    pub fn with_jar(jar: CookieJar) -> (r: Self)
        ensures
            r@ == jar@,
    {
        CookieJarBuilder { jar }
    }

    /// Parses `s` and appends its records, in source order, to the jar being
    /// built. On the first malformed line the whole call fails with that
    /// line's error and no jar is returned.
    pub fn parse(self, s: &str) -> (r: Result<Self, Error>)
        ensures
            match parse_spec(s@) {
                Ok(recs) => r matches Ok(b) && b@ == self@ + recs,
                Err(e) => r matches Err(err) && err@ == SpecError::Parse(e),
            },
    {
        let ghost lseq = split_on(s@, '\n');
        let cs = chars_of(s);
        let n = cs.len();
        let lines = split_ranges(&cs, 0, n, '\n');
        proof {
            assert(cs@.subrange(0, n as int) =~= cs@);
            assert(lseq =~= lines@.map_values(
                |p: (usize, usize)| cs@.subrange(p.0 as int, p.1 as int),
            ));
            assert(lseq.skip(0) =~= lseq);
        }
        let CookieJarBuilder { jar } = self;
        let mut jar = jar;
        let ghost jar0 = jar@;
        let mut li: usize = 0;
        while li < lines.len()
            invariant
                li <= lines.len(),
                cs@ == s@,
                lseq == split_on(s@, '\n'),
                lseq == lines@.map_values(
                    |p: (usize, usize)| cs@.subrange(p.0 as int, p.1 as int),
                ),
                forall|k: int| 0 <= k < lines@.len() ==> #[trigger] lines@[k].0 <= lines@[k].1
                    && lines@[k].1 <= cs@.len(),
                jar0.len() <= jar@.len(),
                jar@.subrange(0, jar0.len() as int) == jar0,
                match parse_lines(lseq.skip(li as int)) {
                    Ok(rs) => parse_lines(lseq) == Ok::<Seq<SpecRecord>, SpecParseError>(
                        jar@.subrange(jar0.len() as int, jar@.len() as int) + rs,
                    ),
                    Err(e) => parse_lines(lseq) == Err::<Seq<SpecRecord>, SpecParseError>(e),
                },
            decreases lines@.len() - li,
        {
            let p = lines[li];
            let ghost l = lseq[li as int];
            proof {
                assert(l == cs@.subrange(p.0 as int, p.1 as int));
                let rem = lseq.skip(li as int);
                assert(rem[0] == l);
                assert(rem.drop_first() =~= lseq.skip(li as int + 1));
            }
            let (ta, tb) = trim_range(&cs, p.0, p.1);
            let ghost t = trim_of(l);
            proof {
                assert(t == cs@.subrange(ta as int, tb as int));
            }
            if ta == tb {
                // blank after trimming: contributes nothing
                proof {
                    assert(line_records(l) == Ok::<Option<SpecRecord>, SpecParseError>(None));
                }
            } else {
                let mut http_only = false;
                let mut body_start = ta;
                let mut comment = false;
                if tb - ta >= 10 && range_eq_str(&cs, ta, ta + 10, "#HttpOnly_") {
                    http_only = true;
                    body_start = ta + 10;
                    proof {
                        assert(t.subrange(0, 10) =~= cs@.subrange(ta as int, ta + 10));
                        assert(t.subrange(10, t.len() as int) =~= cs@.subrange(
                            ta + 10,
                            tb as int,
                        ));
                        assert(classify(t) == Some((true, cs@.subrange(ta + 10, tb as int))));
                    }
                } else {
                    proof {
                        if t.len() >= 10 {
                            assert(t.subrange(0, 10) =~= cs@.subrange(ta as int, ta + 10));
                        }
                        assert(!(t.len() >= 10 && t.subrange(0, 10) == "#HttpOnly_"@));
                        assert(t[0] == cs@[ta as int]);
                    }
                    if cs[ta] == '#' {
                        comment = true;
                        proof {
                            assert(classify(t) is None);
                        }
                    } else {
                        proof {
                            assert(classify(t) == Some((false, t)));
                            assert(cs@.subrange(body_start as int, tb as int) == t);
                        }
                    }
                }
                if comment {
                    proof {
                        assert(line_records(l) == Ok::<Option<SpecRecord>, SpecParseError>(None));
                    }
                } else {
                    let ghost body = cs@.subrange(body_start as int, tb as int);
                    proof {
                        assert(classify(t) == Some((http_only, body)));
                    }
                    match parse_data_line(s, &cs, body_start, tb, http_only) {
                        Ok(rec) => {
                            proof {
                                assert(line_records(l) == Ok::<
                                    Option<SpecRecord>,
                                    SpecParseError,
                                >(Some(rec@)));
                            }
                            let ghost added = jar@.subrange(jar0.len() as int, jar@.len() as int);
                            jar.add(rec);
                            proof {
                                assert(jar@.subrange(0, jar0.len() as int) =~= jar0);
                                assert(jar@.subrange(jar0.len() as int, jar@.len() as int)
                                    =~= added.push(rec@));
                                match parse_lines(lseq.skip(li as int + 1)) {
                                    Ok(rest) => {
                                        assert(parse_lines(lseq.skip(li as int)) == Ok::<
                                            Seq<SpecRecord>,
                                            SpecParseError,
                                        >(seq![rec@] + rest));
                                        assert(added + (seq![rec@] + rest) =~= added.push(rec@)
                                            + rest);
                                    },
                                    Err(_) => {},
                                }
                            }
                        },
                        Err(pe) => {
                            proof {
                                assert(line_records(l) == Err::<
                                    Option<SpecRecord>,
                                    SpecParseError,
                                >(pe@));
                                assert(parse_lines(lseq) == Err::<
                                    Seq<SpecRecord>,
                                    SpecParseError,
                                >(pe@));
                            }
                            return Err(Error::ParseError(pe));
                        },
                    }
                }
            }
            li = li + 1;
        }
        proof {
            assert(lseq.skip(li as int).len() == 0);
            assert(parse_lines(lseq.skip(li as int)) == Ok::<Seq<SpecRecord>, SpecParseError>(
                Seq::empty(),
            ));
            let added = jar@.subrange(jar0.len() as int, jar@.len() as int);
            assert(added + Seq::<SpecRecord>::empty() =~= added);
            assert(jar0 + added =~= jar@);
        }
        Ok(CookieJarBuilder { jar })
    }

    /// Hands out the jar built so far.
    pub fn finish(self) -> (r: CookieJar)
        ensures
            r@ == self@,
    {
        self.jar
    }
}

/// Parses an in-memory string as a whole cookie file: the jar of its records
/// in source order, or the first malformed line's error.
pub fn parse(s: &str) -> (r: Result<CookieJar, Error>)
    ensures
        match parse_spec(s@) {
            Ok(recs) => r matches Ok(j) && j@ == recs,
            Err(e) => r matches Err(err) && err@ == SpecError::Parse(e),
        },
{
    match CookieJarBuilder::new().parse(s) {
        Ok(b) => {
            proof {
                match parse_spec(s@) {
                    Ok(recs) => {
                        assert(Seq::<SpecRecord>::empty() + recs =~= recs);
                    },
                    Err(_) => {},
                }
            }
            Ok(b.finish())
        },
        Err(e) => Err(e),
    }
}

} // verus!
