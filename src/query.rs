//! Queries in their textual form, and the run of a whole input: a line with
//! the number of queries, a line with the bit string, then one query per line.
use vstd::prelude::*;
use crate::bits::{bits_of_chars, chars_of};
use crate::count::{count, positions};
use crate::index::BitIndex;
use crate::tables::BLOCK_SIZE;
use crate::text::{lemma_split_nonempty, number_of, parse_number, same_chars, split_chars, split_on};

verus! {

/// One query against a bit vector.
#[derive(Clone, Copy, Debug, PartialEq, Eq, Structural)]
pub enum Query {
    /// The bit at a position.
    Access(usize),
    /// The number of positions before the second field that hold the bit
    /// value in the first.
    Rank(u32, usize),
    /// The position of an occurrence, counted from one, of a bit value.
    Select(u32, usize),
}

/// Why a query line cannot be answered.
#[derive(Clone, Copy, Debug, PartialEq, Eq, Structural)]
pub enum QueryError {
    /// The first token is none of `access`, `rank` and `select`.
    UnknownQueryType,
    /// The line has fewer arguments than its query type takes.
    MissingArgument,
    /// An argument is not a decimal number that fits in `usize`.
    InvalidNumber,
    /// A bit value other than 0 or 1.
    InvalidBit,
    /// A position past the end of the bit vector.
    PositionOutOfRange,
}

/// Why a whole input cannot be answered.
#[derive(Clone, Copy, Debug, PartialEq, Eq, Structural)]
pub enum InputError {
    /// The first line is not a decimal number that fits in `usize`.
    InvalidQueryCount,
    /// There is no line for the bit string.
    MissingBitString,
    /// There are fewer query lines than the first line announces.
    TooFewQueries,
    /// A query line cannot be answered.
    Query(QueryError),
}

/// The query that a line of text spells: a type token and its arguments,
/// separated by single spaces; tokens after the arguments are ignored.
pub open spec fn parse_query_spec(line: Seq<char>) -> Result<Query, QueryError> {
    let t = split_on(line, ' ');
    if t[0] == "access"@ {
        if t.len() < 2 {
            Err(QueryError::MissingArgument)
        } else {
            match number_of(t[1]) {
                Some(i) => Ok(Query::Access(i)),
                None => Err(QueryError::InvalidNumber),
            }
        }
    } else if t[0] == "rank"@ || t[0] == "select"@ {
        if t.len() < 3 {
            Err(QueryError::MissingArgument)
        } else {
            match (number_of(t[1]), number_of(t[2])) {
                (Some(b), Some(i)) => if b > 1 {
                    Err(QueryError::InvalidBit)
                } else if t[0] == "rank"@ {
                    Ok(Query::Rank(b as u32, i))
                } else {
                    Ok(Query::Select(b as u32, i))
                },
                _ => Err(QueryError::InvalidNumber),
            }
        }
    } else {
        Err(QueryError::UnknownQueryType)
    }
}

/// The answer to a query over `bits`: a number, or `None` for a select that
/// has no such occurrence.
pub open spec fn answer_spec(bits: Seq<u32>, q: Query) -> Result<Option<usize>, QueryError> {
    match q {
        Query::Access(i) => if i < bits.len() {
            Ok(Some(bits[i as int] as usize))
        } else {
            Err(QueryError::PositionOutOfRange)
        },
        Query::Rank(b, i) => if i <= bits.len() {
            Ok(Some(count(bits.take(i as int), b) as usize))
        } else {
            Err(QueryError::PositionOutOfRange)
        },
        Query::Select(b, i) => if 1 <= i <= count(bits, b) {
            Ok(Some(positions(bits, b)[i - 1] as usize))
        } else {
            Ok(None)
        },
    }
}

/// The answer to a line of text over `bits`.
pub open spec fn answer_line_spec(bits: Seq<u32>, line: Seq<char>) -> Result<
    Option<usize>,
    QueryError,
> {
    match parse_query_spec(line) {
        Ok(q) => answer_spec(bits, q),
        Err(e) => Err(e),
    }
}

/// The answers to the first `q` query lines, which start at line `start`,
/// or the first error met on the way.
pub open spec fn answers_spec(bits: Seq<u32>, lines: Seq<Seq<char>>, start: int, q: nat) -> Result<
    Seq<Option<usize>>,
    InputError,
>
    decreases q,
{
    if q == 0 {
        Ok(Seq::empty())
    } else {
        match answers_spec(bits, lines, start, (q - 1) as nat) {
            Err(e) => Err(e),
            Ok(prev) => if start + q - 1 >= lines.len() {
                Err(InputError::TooFewQueries)
            } else {
                match answer_line_spec(bits, lines[start + q - 1]) {
                    Ok(a) => Ok(prev.push(a)),
                    Err(e) => Err(InputError::Query(e)),
                }
            },
        }
    }
}

/// The answers to a whole input text.
pub open spec fn run_input_spec(text: Seq<char>) -> Result<Seq<Option<usize>>, InputError> {
    let lines = split_on(text, '\n');
    match number_of(lines[0]) {
        None => Err(InputError::InvalidQueryCount),
        Some(q) => if lines.len() < 2 {
            Err(InputError::MissingBitString)
        } else {
            answers_spec(bits_of_chars(lines[1]), lines, 2, q as nat)
        },
    }
}

/// Once an error is met, later query lines do not change it.
proof fn lemma_answers_error_stays(
    bits: Seq<u32>,
    lines: Seq<Seq<char>>,
    start: int,
    q: nat,
    m: nat,
)
    requires
        q <= m,
        answers_spec(bits, lines, start, q) is Err,
    ensures
        answers_spec(bits, lines, start, m) == answers_spec(bits, lines, start, q),
    decreases m - q,
{
    if q < m {
        lemma_answers_error_stays(bits, lines, start, q, (m - 1) as nat);
    }
}

/// Reads the query that a run of characters spells.
pub fn parse_query_chars(line: &Vec<char>) -> (r: Result<Query, QueryError>)
    ensures
        r == parse_query_spec(line@),
{
    let tokens = split_chars(line, ' ');
    proof {
        lemma_split_nonempty(line@, ' ');
    }
    let access_word = chars_of("access");
    let rank_word = chars_of("rank");
    let select_word = chars_of("select");
    let kind = &tokens[0];
    if same_chars(kind, &access_word) {
        if tokens.len() < 2 {
            return Err(QueryError::MissingArgument);
        }
        match parse_number(&tokens[1]) {
            Some(i) => Ok(Query::Access(i)),
            None => Err(QueryError::InvalidNumber),
        }
    } else {
        let is_rank = same_chars(kind, &rank_word);
        let is_select = same_chars(kind, &select_word);
        if !is_rank && !is_select {
            return Err(QueryError::UnknownQueryType);
        }
        if tokens.len() < 3 {
            return Err(QueryError::MissingArgument);
        }
        let b = parse_number(&tokens[1]);
        let i = parse_number(&tokens[2]);
        match (b, i) {
            (Some(b), Some(i)) => {
                if b > 1 {
                    Err(QueryError::InvalidBit)
                } else if is_rank {
                    Ok(Query::Rank(b as u32, i))
                } else {
                    Ok(Query::Select(b as u32, i))
                }
            },
            _ => Err(QueryError::InvalidNumber),
        }
    }
}

/// Reads the query that a line of text spells.
pub fn parse_query(line: &str) -> (r: Result<Query, QueryError>)
    ensures
        r == parse_query_spec(line@),
{
    let chars = chars_of(line);
    parse_query_chars(&chars)
}

impl BitIndex {
    /// Answers one query: `Some` with a bit, a rank or a position, or `None`
    /// for a select that has no such occurrence. A position past the end of
    /// the vector is an error. The answer depends on the index's bits and
    /// the query alone, so asking again gives the same answer.
    pub fn run_query(&self, q: &Query) -> (r: Result<Option<usize>, QueryError>)
        requires
            self.wf(),
        ensures
            r == answer_spec(self@, *q),
    {
        match *q {
            Query::Access(i) => if i < self.len() {
                Ok(Some(self.access(i) as usize))
            } else {
                Err(QueryError::PositionOutOfRange)
            },
            Query::Rank(b, i) => if i <= self.len() {
                if b > 1 {
                    proof {
                        self.lemma_wf_bits();
                        crate::count::lemma_count_non_bit(self@.take(i as int), b);
                    }
                    Ok(Some(0))
                } else {
                    Ok(Some(self.rank(b, i)))
                }
            } else {
                Err(QueryError::PositionOutOfRange)
            },
            Query::Select(b, i) => {
                if b > 1 {
                    proof {
                        self.lemma_wf_bits();
                        crate::count::lemma_count_non_bit(self@, b);
                    }
                    Ok(None)
                } else {
                    Ok(self.select(b, i))
                }
            },
        }
    }
}

/// Reads a query line and answers it against `index`.
pub fn parse_and_run_query(index: &BitIndex, query_string: &str) -> (r: Result<
    Option<usize>,
    QueryError,
>)
    requires
        index.wf(),
    ensures
        r == answer_line_spec(index@, query_string@),
{
    let chars = chars_of(query_string);
    run_line(index, &chars)
}

fn run_line(index: &BitIndex, line: &Vec<char>) -> (r: Result<Option<usize>, QueryError>)
    requires
        index.wf(),
    ensures
        r == answer_line_spec(index@, line@),
{
    match parse_query_chars(line) {
        Ok(q) => index.run_query(&q),
        Err(e) => Err(e),
    }
}

/// Answers a whole input text: the first line gives the number of queries,
/// the second the bit string, and each following line one query. The answers
/// come in the order of the queries, beside the index built from the bit
/// string; the first error met ends the run.
pub fn run_input(contents: &str) -> (r: Result<(BitIndex, Vec<Option<usize>>), InputError>)
    ensures
        match r {
            Ok((index, v)) => {
                &&& run_input_spec(contents@) == Ok::<Seq<Option<usize>>, InputError>(v@)
                &&& index.wf()
                &&& index@ == bits_of_chars(split_on(contents@, '\n')[1])
            },
            Err(e) => run_input_spec(contents@) == Err::<Seq<Option<usize>>, InputError>(e),
        },
{
    let text = chars_of(contents);
    let lines = split_chars(&text, '\n');
    let ghost line_seq = split_on(contents@, '\n');
    proof {
        lemma_split_nonempty(contents@, '\n');
    }
    let query_count = match parse_number(&lines[0]) {
        Some(q) => q,
        None => return Err(InputError::InvalidQueryCount),
    };
    if lines.len() < 2 {
        return Err(InputError::MissingBitString);
    }
    let index = BitIndex::from_chars(&lines[1], BLOCK_SIZE);
    let ghost bits = bits_of_chars(line_seq[1]);
    let mut results: Vec<Option<usize>> = Vec::new();
    let mut q: usize = 0;
    while q < query_count
        invariant
            q <= query_count,
            index.wf(),
            index@ == bits,
            lines@.len() == line_seq.len(),
            lines@.len() >= 2,
            line_seq == split_on(contents@, '\n'),
            number_of(line_seq[0]) == Some(query_count),
            bits == bits_of_chars(line_seq[1]),
            forall|j: int| 0 <= j < lines@.len() ==> #[trigger] lines@[j]@ == line_seq[j],
            answers_spec(bits, line_seq, 2, q as nat) == Ok::<Seq<Option<usize>>, InputError>(
                results@,
            ),
        decreases query_count - q,
    {
        if q >= lines.len() - 2 {
            proof {
                lemma_answers_error_stays(bits, line_seq, 2, (q + 1) as nat, query_count as nat);
            }
            return Err(InputError::TooFewQueries);
        }
        match run_line(&index, &lines[q + 2]) {
            Ok(a) => {
                results.push(a);
            },
            Err(e) => {
                proof {
                    lemma_answers_error_stays(
                        bits,
                        line_seq,
                        2,
                        (q + 1) as nat,
                        query_count as nat,
                    );
                }
                return Err(InputError::Query(e));
            },
        }
        q += 1;
    }
    Ok((index, results))
}

} // verus!
