use commit_race::commits::{get_commits_per_week, Commits};
use commit_race::contributors::{Author, Contributor, Week};
use commit_race::error::MalformedInputError;

const W1: u32 = 1361059200;
const W2: u32 = 1361664000;
const W3: u32 = 1362268800;

fn week(w: u32, c: u32) -> Week {
    Week { w, a: 0, d: 0, c }
}

fn contributor(login: &str, weeks: Vec<Week>) -> Contributor {
    Contributor {
        total: weeks.iter().map(|w| w.c).sum(),
        author: Author { login: login.to_string() },
        weeks,
    }
}

fn weekly(commits: &Commits, week: u32, author: &str) -> Option<u32> {
    commits.weekly_commits.get(&week).and_then(|w| w.authors.get(author).copied())
}

fn cumulative(commits: &Commits, week: u32, author: &str) -> Option<u32> {
    commits.sum_commits.get(&week).and_then(|w| w.authors.get(author).copied())
}

#[test]
fn should_return_commits_per_week() {
    let contributors = vec![
        Contributor {
            total: 1,
            weeks: vec![
                Week {
                    w: 1361059200,
                    a: 0,
                    d: 0,
                    c: 1,
                },
                Week {
                    w: 1361664000,
                    a: 0,
                    d: 0,
                    c: 0,
                },
                Week {
                    w: 1362268800,
                    a: 0,
                    d: 0,
                    c: 0,
                },
            ],
            author: Author {
                login: "octocat".to_string(),
            },
        },
        Contributor {
            total: 4,
            weeks: vec![
                Week {
                    w: 1361059200,
                    a: 0,
                    d: 0,
                    c: 3,
                },
                Week {
                    w: 1361664000,
                    a: 0,
                    d: 0,
                    c: 1,
                },
                Week {
                    w: 1362268800,
                    a: 0,
                    d: 0,
                    c: 1,
                },
            ],
            author: Author {
                login: "octobot".to_string(),
            },
        },
    ];

    let commits = get_commits_per_week(contributors, vec![]).unwrap();
    assert_eq!(commits.weekly_commits.len(), 3);
    assert_eq!(commits.sum_commits.len(), 3);
    assert_eq!(commits.first_week, 1361059200);
    assert_eq!(commits.last_week, 1362268800);
    assert_eq!(commits.total_weeks, 3);
    assert_eq!(
        commits
            .weekly_commits
            .get(&1361059200)
            .unwrap()
            .authors
            .len(),
        2
    );
    assert_eq!(
        commits
            .weekly_commits
            .get(&1361059200)
            .unwrap()
            .authors
            .get("octocat")
            .unwrap(),
        &1
    );
    assert_eq!(
        commits
            .weekly_commits
            .get(&1361059200)
            .unwrap()
            .authors
            .get("octobot")
            .unwrap(),
        &3
    );

    assert_eq!(
        commits
            .sum_commits
            .get(&1362268800)
            .unwrap()
            .authors
            .get("octocat")
            .unwrap(),
        &1
    );
    assert_eq!(
        commits
            .sum_commits
            .get(&1362268800)
            .unwrap()
            .authors
            .get("octobot")
            .unwrap(),
        &5
    );
}

#[test]
fn new_timeline_is_empty() {
    let commits = Commits::new();
    assert_eq!(commits.first_week, 0);
    assert_eq!(commits.last_week, 0);
    assert_eq!(commits.total_weeks, 0);
    assert!(commits.weekly_commits.is_empty());
    assert!(commits.sum_commits.is_empty());
}

#[test]
fn no_contributors_give_the_empty_timeline() {
    let commits = get_commits_per_week(vec![], vec![]).unwrap();
    assert_eq!(commits.total_weeks, 0);
    assert!(commits.weekly_commits.is_empty());
    assert!(commits.sum_commits.is_empty());
}

#[test]
fn weekly_and_cumulative_counts_of_two_authors() {
    let feed = vec![
        contributor("octocat", vec![week(W1, 1), week(W2, 0), week(W3, 0)]),
        contributor("octobot", vec![week(W1, 3), week(W2, 1), week(W3, 1)]),
    ];
    let commits = get_commits_per_week(feed, vec![]).unwrap();
    assert_eq!(weekly(&commits, W1, "octocat"), Some(1));
    assert_eq!(weekly(&commits, W1, "octobot"), Some(3));
    assert_eq!(weekly(&commits, W2, "octocat"), Some(0));
    assert_eq!(weekly(&commits, W2, "octobot"), Some(1));
    assert_eq!(cumulative(&commits, W1, "octocat"), Some(1));
    assert_eq!(cumulative(&commits, W2, "octocat"), Some(1));
    assert_eq!(cumulative(&commits, W3, "octocat"), Some(1));
    assert_eq!(cumulative(&commits, W1, "octobot"), Some(3));
    assert_eq!(cumulative(&commits, W2, "octobot"), Some(4));
    assert_eq!(cumulative(&commits, W3, "octobot"), Some(5));
    assert_eq!(commits.sum_commits.get(&W3).unwrap().authors.len(), 2);
}

#[test]
fn last_cumulative_count_is_the_sum_of_the_weekly_counts() {
    let weeks = vec![week(10, 4), week(20, 0), week(30, 7), week(40, 2), week(50, 9)];
    let total: u32 = weeks.iter().map(|w| w.c).sum();
    let feed = vec![
        contributor("ann", weeks),
        contributor("bob", vec![week(20, 5), week(50, 1)]),
    ];
    let commits = get_commits_per_week(feed, vec![]).unwrap();
    assert_eq!(total, 22);
    assert_eq!(cumulative(&commits, 50, "ann"), Some(22));
    assert_eq!(cumulative(&commits, 50, "bob"), Some(6));
}

#[test]
fn cumulative_counts_never_fall_along_the_sorted_weeks() {
    let feed = vec![contributor(
        "ann",
        vec![week(40, 2), week(10, 4), week(30, 0), week(20, 1), week(50, 3)],
    )];
    let commits = get_commits_per_week(feed, vec![]).unwrap();
    let along: Vec<u32> =
        [10, 20, 30, 40, 50].iter().map(|w| cumulative(&commits, *w, "ann").unwrap()).collect();
    assert_eq!(along, vec![4, 5, 5, 7, 10]);
    for pair in along.windows(2) {
        assert!(pair[0] <= pair[1]);
    }
}

#[test]
fn weeks_are_sorted_before_they_are_added_up() {
    let feed = vec![contributor("ann", vec![week(W3, 5), week(W1, 1), week(W2, 2)])];
    let commits = get_commits_per_week(feed, vec![]).unwrap();
    assert_eq!(commits.first_week, W1);
    assert_eq!(commits.last_week, W3);
    assert_eq!(commits.total_weeks, 3);
    assert_eq!(cumulative(&commits, W1, "ann"), Some(1));
    assert_eq!(cumulative(&commits, W2, "ann"), Some(3));
    assert_eq!(cumulative(&commits, W3, "ann"), Some(8));
    assert_eq!(weekly(&commits, W3, "ann"), Some(5));
}

#[test]
fn excluded_authors_appear_nowhere() {
    let feed = vec![
        contributor("octocat", vec![week(W1, 1), week(W2, 2)]),
        contributor("dependabot", vec![week(W1, 9), week(W3, 9)]),
        contributor("octobot", vec![week(W2, 3)]),
    ];
    let commits = get_commits_per_week(feed, vec!["dependabot".to_string()]).unwrap();
    for w in [W1, W2, W3] {
        assert_eq!(weekly(&commits, w, "dependabot"), None);
        assert_eq!(cumulative(&commits, w, "dependabot"), None);
    }
    assert!(!commits.weekly_commits.contains_key(&W3));
    assert!(!commits.sum_commits.contains_key(&W3));
    assert_eq!(commits.weekly_commits.get(&W1).unwrap().authors.len(), 1);
    assert_eq!(cumulative(&commits, W2, "octocat"), Some(3));
    assert_eq!(cumulative(&commits, W2, "octobot"), Some(3));
}

#[test]
fn an_excluded_contributor_without_weeks_is_passed_over() {
    let feed = vec![contributor("bot", vec![]), contributor("ann", vec![week(W1, 2)])];
    let commits = get_commits_per_week(feed, vec!["bot".to_string()]).unwrap();
    assert_eq!(cumulative(&commits, W1, "ann"), Some(2));
    assert_eq!(commits.total_weeks, 1);
}

#[test]
fn bounds_are_those_of_the_last_contributor_taken_in() {
    let feed = vec![
        contributor("ann", vec![week(10, 1), week(20, 1), week(30, 1), week(40, 1)]),
        contributor("bob", vec![week(20, 2), week(30, 2)]),
        contributor("bot", vec![week(5, 1)]),
    ];
    let commits = get_commits_per_week(feed, vec!["bot".to_string()]).unwrap();
    assert_eq!(commits.first_week, 20);
    assert_eq!(commits.last_week, 30);
    assert_eq!(commits.total_weeks, 2);
    assert_eq!(commits.sum_commits.len(), 4);
    assert_eq!(commits.weekly_commits.len(), 4);
}

#[test]
fn a_week_given_twice_overwrites_the_weekly_and_adds_to_the_cumulative_count() {
    let feed = vec![contributor("ann", vec![week(W1, 1), week(W1, 2), week(W2, 3)])];
    let commits = get_commits_per_week(feed, vec![]).unwrap();
    assert_eq!(weekly(&commits, W1, "ann"), Some(2));
    assert_eq!(cumulative(&commits, W1, "ann"), Some(4));
    assert_eq!(cumulative(&commits, W2, "ann"), Some(7));
    assert_eq!(commits.total_weeks, 3);
}

#[test]
fn an_author_given_twice_adds_to_its_cumulative_counts() {
    let feed = vec![
        contributor("ann", vec![week(W1, 1), week(W2, 0)]),
        contributor("ann", vec![week(W1, 5)]),
    ];
    let commits = get_commits_per_week(feed, vec![]).unwrap();
    assert_eq!(weekly(&commits, W1, "ann"), Some(5));
    assert_eq!(cumulative(&commits, W1, "ann"), Some(6));
    assert_eq!(cumulative(&commits, W2, "ann"), Some(1));
    assert_eq!(commits.total_weeks, 1);
    assert_eq!(commits.sum_commits.get(&W1).unwrap().authors.len(), 1);
}

#[test]
fn a_contributor_without_weeks_is_malformed_input() {
    let feed = vec![contributor("ann", vec![week(W1, 1)]), contributor("bob", vec![])];
    let refused = get_commits_per_week(feed, vec![]);
    assert!(matches!(refused, Err(MalformedInputError)));
}

#[test]
fn a_cumulative_count_beyond_u32_is_malformed_input() {
    let feed = vec![contributor("ann", vec![week(W1, u32::MAX), week(W2, 1)])];
    assert!(get_commits_per_week(feed, vec![]).is_err());
    let feed = vec![contributor("ann", vec![week(W1, u32::MAX), week(W2, 0)])];
    let commits = get_commits_per_week(feed, vec![]).unwrap();
    assert_eq!(cumulative(&commits, W2, "ann"), Some(u32::MAX));
    let feed = vec![
        contributor("ann", vec![week(W1, u32::MAX)]),
        contributor("ann", vec![week(W1, 1)]),
    ];
    assert!(get_commits_per_week(feed, vec![]).is_err());
}

#[test]
fn malformed_input_has_a_message() {
    assert_eq!(
        MalformedInputError.message(),
        "malformed input: a contributor's week list is empty or inconsistent"
    );
}

#[test]
fn authors_keep_the_order_in_which_they_came() {
    let feed = vec![
        contributor("zed", vec![week(W1, 1)]),
        contributor("ann", vec![week(W1, 1)]),
        contributor("kim", vec![week(W1, 1)]),
    ];
    let commits = get_commits_per_week(feed, vec![]).unwrap();
    let names: Vec<String> = commits
        .sum_commits
        .get(&W1)
        .unwrap()
        .authors
        .entries()
        .into_iter()
        .map(|(name, _)| name)
        .collect();
    assert_eq!(names, vec!["zed", "ann", "kim"]);
}
