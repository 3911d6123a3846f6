use ads_bitvector::{
    parse_and_run_query, parse_query, run_input, BitIndex, InputError, Query, QueryError,
};

#[test]
fn parses_each_query_type() {
    assert_eq!(parse_query("access 12"), Ok(Query::Access(12)));
    assert_eq!(parse_query("rank 1 30"), Ok(Query::Rank(1, 30)));
    assert_eq!(parse_query("select 0 7"), Ok(Query::Select(0, 7)));
    assert_eq!(parse_query("rank 0 4 extra"), Ok(Query::Rank(0, 4)));
}

#[test]
fn rejects_malformed_queries() {
    assert_eq!(parse_query("count 1 2"), Err(QueryError::UnknownQueryType));
    assert_eq!(parse_query(""), Err(QueryError::UnknownQueryType));
    assert_eq!(parse_query("access"), Err(QueryError::MissingArgument));
    assert_eq!(parse_query("rank 1"), Err(QueryError::MissingArgument));
    assert_eq!(parse_query("select 1 x"), Err(QueryError::InvalidNumber));
    assert_eq!(parse_query("access -1"), Err(QueryError::InvalidNumber));
    assert_eq!(parse_query("access 1  "), Ok(Query::Access(1)));
    assert_eq!(parse_query("access  1"), Err(QueryError::InvalidNumber));
    assert_eq!(parse_query("rank 2 1"), Err(QueryError::InvalidBit));
    assert_eq!(
        parse_query("access 99999999999999999999999"),
        Err(QueryError::InvalidNumber)
    );
}

#[test]
fn runs_query_lines() {
    let index = BitIndex::new("10101010");
    assert_eq!(parse_and_run_query(&index, "access 0"), Ok(Some(1)));
    assert_eq!(parse_and_run_query(&index, "rank 1 4"), Ok(Some(2)));
    assert_eq!(parse_and_run_query(&index, "select 1 4"), Ok(Some(6)));
    assert_eq!(parse_and_run_query(&index, "select 1 5"), Ok(None));
    assert_eq!(
        parse_and_run_query(&index, "access 8"),
        Err(QueryError::PositionOutOfRange)
    );
    assert_eq!(
        parse_and_run_query(&index, "rank 0 9"),
        Err(QueryError::PositionOutOfRange)
    );
    assert_eq!(parse_and_run_query(&index, "rank 0 8"), Ok(Some(4)));
}

#[test]
fn runs_whole_input() {
    let input = "4\n1111111100000000\nrank 1 8\nrank 1 16\nselect 1 8\nselect 1 9";
    assert_eq!(
        run_input(input).map(|(_, answers)| answers),
        Ok(vec![Some(8), Some(8), Some(7), None])
    );
}

#[test]
fn empty_query_batch() {
    let (index, answers) = run_input("0\n10101010").unwrap();
    assert!(answers.is_empty());
    assert_eq!(index.len(), 8);
    let (_, answers) = run_input("0\n10101010\naccess 0").unwrap();
    assert!(answers.is_empty());
}

fn errors_of(input: &str) -> Result<(), InputError> {
    run_input(input).map(|_| ())
}

#[test]
fn input_errors() {
    assert_eq!(errors_of(""), Err(InputError::InvalidQueryCount));
    assert_eq!(errors_of("two\n1010"), Err(InputError::InvalidQueryCount));
    assert_eq!(errors_of("1"), Err(InputError::MissingBitString));
    assert_eq!(errors_of("2\n1010\naccess 1"), Err(InputError::TooFewQueries));
    assert_eq!(
        errors_of("2\n1010\nfind 1\naccess 1"),
        Err(InputError::Query(QueryError::UnknownQueryType))
    );
    assert_eq!(
        errors_of("1\n1010\naccess 4"),
        Err(InputError::Query(QueryError::PositionOutOfRange))
    );
}
