//! Errors about private tables name a row and a problem, and nothing of what stands in the row.

use crate::pack_text::{
    pack_entries, pack_entry_row, pack_entry_step, pack_rule_row, pack_rule_step, pack_rules,
    EntryView, RuleKey,
};
use crate::tables::{
    case_row, case_step, dictionary_entries, fold_rows, policy_problem, private_row, private_step,
    recall_items, recall_row, recall_step, row_message, CaseRows, EntryRows, PairRows, MAX_CASES,
};
use crate::text::{decimal, lines};
use vstd::prelude::*;

verus! {

/// Whether an error names one of the first `count` rows and one of some problems, and nothing
/// else.
pub open spec fn names_a_row(
    error: Seq<char>,
    kind: Seq<char>,
    problems: Seq<Seq<char>>,
    count: int,
) -> bool {
    exists|number: nat, problem: int|
        1 <= number <= count && 0 <= problem < problems.len() && error == #[trigger] row_message(
            kind,
            number,
            problems[problem],
        )
}

/// An error of some rows is an error of one of them.
proof fn an_error_is_one_of_a_row<S>(
    start: S,
    rows: Seq<Seq<char>>,
    step: spec_fn(S, Seq<char>, nat) -> Result<S, Seq<char>>,
    count: int,
)
    ensures
        fold_rows(start, rows, step, count) matches Err(error) ==> exists|
            state: S,
            line: Seq<char>,
            number: nat,
        |
            1 <= number <= count && #[trigger] step(state, line, number) == Err::<S, Seq<char>>(
                error,
            ),
    decreases count,
{
    if count > 0 {
        an_error_is_one_of_a_row(start, rows, step, count - 1);
        if let Ok(before) = fold_rows(start, rows, step, count - 1) {
            if let Err(error) = step(before, rows[count - 1], count as nat) {
                assert(step(before, rows[count - 1], count as nat) == Err::<S, Seq<char>>(error));
            }
        }
    }
}

/// The problems of rows with expected surfaces.
pub open spec fn recall_problems() -> Seq<Seq<char>> {
    seq![
        " has an empty reading"@,
        " has an empty surface"@,
        " has more than two columns"@,
        " duplicates an earlier reading and surface pair"@,
    ]
}

/// An error about expected surfaces repeats neither a reading nor a surface.
pub proof fn recall_errors_repeat_nothing(source: Seq<char>)
    ensures
        recall_items(source) matches Err(error) ==> error == "input contains no recall items"@
            || names_a_row(error, "line "@, recall_problems(), lines(source).len() as int),
{
    let rows = lines(source);
    let start = PairRows { items: Seq::empty(), seen: Set::empty() };
    an_error_is_one_of_a_row(start, rows, recall_step(), rows.len() as int);
    if let Err(error) = fold_rows(start, rows, recall_step(), rows.len() as int) {
        let (state, line, number) = choose|
            state: PairRows,
            line: Seq<char>,
            number: nat,
        |
            1 <= number <= rows.len() && #[trigger] recall_step()(state, line, number) == Err::<
                PairRows,
                Seq<char>,
            >(error);
        assert(recall_row(state, line, number) == Err::<PairRows, Seq<char>>(error));
        let problems = recall_problems();
        assert(error == row_message("line "@, number, problems[0]) || error == row_message(
            "line "@,
            number,
            problems[1],
        ) || error == row_message("line "@, number, problems[2]) || error == row_message(
            "line "@,
            number,
            problems[3],
        ));
    }
}

/// The problems of rows of a private dictionary.
pub open spec fn private_problems() -> Seq<Seq<char>> {
    seq![
        " exceeds the byte limit"@,
        " has an invalid cost"@,
        " is invalid"@,
        " has an invalid reading"@,
        " duplicates an earlier entry"@,
    ]
}

/// An error about a private dictionary repeats nothing of its entries.
pub proof fn private_dictionary_errors_repeat_nothing(source: Seq<char>)
    ensures
        dictionary_entries(source, private_step()) matches Err(error) ==> error
            == "dictionary contains no entries"@ || names_a_row(
            error,
            "dictionary line "@,
            private_problems(),
            lines(source).len() as int,
        ),
{
    let rows = lines(source);
    let start = EntryRows { entries: Seq::empty(), seen: Set::empty() };
    an_error_is_one_of_a_row(start, rows, private_step(), rows.len() as int);
    if let Err(error) = fold_rows(start, rows, private_step(), rows.len() as int) {
        let (state, line, number) = choose|
            state: EntryRows,
            line: Seq<char>,
            number: nat,
        |
            1 <= number <= rows.len() && #[trigger] private_step()(state, line, number) == Err::<
                EntryRows,
                Seq<char>,
            >(error);
        assert(private_row(state, line, number) == Err::<EntryRows, Seq<char>>(
            error,
        ));
        let problems = private_problems();
        let kind = "dictionary line "@;
        assert(error == row_message(kind, number, problems[0]) || error == row_message(
            kind,
            number,
            problems[1],
        ) || error == row_message(kind, number, problems[2]) || error == row_message(
            kind,
            number,
            problems[3],
        ) || error == row_message(kind, number, problems[4]));
    }
}

/// The problems of context cases.
pub open spec fn case_problems() -> Seq<Seq<char>> {
    seq![
        " has an empty or missing column"@,
        " has more than three columns"@,
        " has an invalid surface"@,
        " reading must be hiragana"@,
        " duplicates a context and reading"@,
    ]
}

/// An error about context cases repeats nothing of their vocabulary.
pub proof fn case_errors_repeat_nothing(start: CaseRows, source: Seq<char>)
    ensures
        fold_rows(start, lines(source), case_step(), lines(source).len() as int) matches Err(
            error,
        ) ==> error == "inputs exceed the "@ + decimal(MAX_CASES as nat) + " case limit"@
            || names_a_row(error, "line "@, case_problems(), lines(source).len() as int),
{
    let rows = lines(source);
    an_error_is_one_of_a_row(start, rows, case_step(), rows.len() as int);
    if let Err(error) = fold_rows(start, rows, case_step(), rows.len() as int) {
        let (state, line, number) = choose|state: CaseRows, line: Seq<char>, number: nat|
            1 <= number <= rows.len() && #[trigger] case_step()(state, line, number) == Err::<
                CaseRows,
                Seq<char>,
            >(error);
        assert(case_row(state, line, number) == Err::<CaseRows, Seq<char>>(error));
        let problems = case_problems();
        assert(error == "inputs exceed the "@ + decimal(MAX_CASES as nat) + " case limit"@ || error
            == row_message("line "@, number, problems[0]) || error == row_message(
            "line "@,
            number,
            problems[1],
        ) || error == row_message("line "@, number, problems[2]) || error == row_message(
            "line "@,
            number,
            problems[3],
        ) || error == row_message("line "@, number, problems[4]));
    }
}

/// The problems of entries for a pack.
pub open spec fn entry_problems() -> Seq<Seq<char>> {
    seq![" exceeds the byte limit"@, " has a non-numeric cost"@, " is malformed"@]
}

/// The problems of context rules for a pack.
pub open spec fn rule_problems() -> Seq<Seq<char>> {
    seq![" exceeds the byte limit"@, " has a non-numeric priority"@, " is malformed"@]
}

/// An error about the entries of a pack repeats nothing of them.
pub proof fn entry_errors_repeat_nothing(source: Seq<char>)
    ensures
        pack_entries(source) matches Err(error) ==> error
            == "entries input exceeds the record limit"@ || names_a_row(
            error,
            "entry input line "@,
            entry_problems(),
            lines(source).len() as int,
        ),
{
    let rows = lines(source);
    let start = Seq::<EntryView>::empty();
    an_error_is_one_of_a_row(start, rows, pack_entry_step(), rows.len() as int);
    if let Err(error) = pack_entries(source) {
        let (state, line, number) = choose|
            state: Seq<EntryView>,
            line: Seq<char>,
            number: nat,
        |
            1 <= number <= rows.len() && #[trigger] pack_entry_step()(state, line, number) == Err::<
                Seq<EntryView>,
                Seq<char>,
            >(error);
        assert(pack_entry_row(state, line, number) == Err::<
            Seq<EntryView>,
            Seq<char>,
        >(error));
        let problems = entry_problems();
        let kind = "entry input line "@;
        assert(error == "entries input exceeds the record limit"@ || error == row_message(
            kind,
            number,
            problems[0],
        ) || error == row_message(kind, number, problems[1]) || error == row_message(
            kind,
            number,
            problems[2],
        ));
    }
}

/// An error about the context rules of a pack repeats nothing of them.
pub proof fn rule_errors_repeat_nothing(source: Seq<char>)
    ensures
        pack_rules(source) matches Err(error) ==> error
            == "context rules input exceeds the record limit"@ || names_a_row(
            error,
            "context rule input line "@,
            rule_problems(),
            lines(source).len() as int,
        ),
{
    let rows = lines(source);
    let start = Seq::<RuleKey>::empty();
    an_error_is_one_of_a_row(start, rows, pack_rule_step(), rows.len() as int);
    if let Err(error) = pack_rules(source) {
        let (state, line, number) = choose|
            state: Seq<RuleKey>,
            line: Seq<char>,
            number: nat,
        |
            1 <= number <= rows.len() && #[trigger] pack_rule_step()(state, line, number) == Err::<
                Seq<RuleKey>,
                Seq<char>,
            >(error);
        assert(pack_rule_row(state, line, number) == Err::<
            Seq<RuleKey>,
            Seq<char>,
        >(error));
        let problems = rule_problems();
        let kind = "context rule input line "@;
        assert(error == "context rules input exceeds the record limit"@ || error == row_message(
            kind,
            number,
            problems[0],
        ) || error == row_message(kind, number, problems[1]) || error == row_message(
            kind,
            number,
            problems[2],
        ));
    }
}

/// The problems of policy records.
pub open spec fn policy_problems() -> Seq<Seq<char>> {
    seq![" is malformed"@, " is invalid"@]
}

/// An error about a policy repeats nothing of its records.
pub proof fn policy_errors_repeat_nothing(
    kind: Seq<char>,
    wellformed: Seq<bool>,
    valid: Seq<bool>,
    limit: int,
    index: int,
)
    requires
        0 <= index,
    ensures
        policy_problem(kind, wellformed, valid, limit, index) matches Some(error) ==> error == kind
            + " input exceeds the record limit"@ || names_a_row(
            error,
            kind + " input line "@,
            policy_problems(),
            wellformed.len() as int,
        ),
    decreases wellformed.len() - index,
{
    if index < wellformed.len() {
        let row = kind + " input line "@;
        let number = (index + 1) as nat;
        let problems = policy_problems();
        if !wellformed[index] {
            assert(policy_problem(kind, wellformed, valid, limit, index) == Some(
                row_message(row, number, problems[0]),
            ));
        } else if !valid[index] {
            assert(policy_problem(kind, wellformed, valid, limit, index) == Some(
                row_message(row, number, problems[1]),
            ));
        } else if index + 1 <= limit {
            policy_errors_repeat_nothing(kind, wellformed, valid, limit, index + 1);
        }
    }
}

} // verus!
