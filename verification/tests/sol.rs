use ripopt::nl::sol::{solve_code, status_message};
use ripopt::result::SolveStatus;

#[test]
fn time_exceeded_distinct_from_iter_exceeded_in_sol() {
    assert_eq!(solve_code(SolveStatus::MaxIterations), 400);
    assert_eq!(solve_code(SolveStatus::MaxTimeExceeded), 401);
    assert_eq!(
        status_message(SolveStatus::MaxIterations),
        "Maximum Number of Iterations Exceeded"
    );
    assert_eq!(
        status_message(SolveStatus::MaxTimeExceeded),
        "Maximum CPU Time Exceeded"
    );
}
