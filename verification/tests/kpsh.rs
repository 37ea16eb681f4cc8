use kpsh::editor::{step, typeahead};
use kpsh::index::{CredentialIndex, CredentialRecord, StringField};
use kpsh::prefix::{lcp_util, longest_common_prefix};

fn record(title: &str, secret: &str) -> CredentialRecord {
    CredentialRecord {
        title: StringField::Plain(title.to_string()),
        secret: StringField::Protected(secret.to_string()),
    }
}

fn bank_index() -> CredentialIndex {
    CredentialIndex::build(&vec![record("Bank", "secretA"), record("Bank2", "secretB")])
}

#[test]
fn lcp_util_returns_the_longest_common_prefix_of_two_strings() {
    let s1 = "foobar".to_string();
    let s2 = "fooqux".to_string();

    assert_eq!("foo", lcp_util(s1, s2));
}

#[test]
fn longest_common_prefix_returns_the_longest_common_prefix_of_a_vector_of_strings() {
    let v = vec!["foo1".to_string(), "foo2".to_string(), "foo3".to_string()];

    assert_eq!("foo", longest_common_prefix(&v));
}

#[test]
fn longest_common_prefix_of_a_single_string_is_that_string() {
    let v = vec!["Bank".to_string()];

    assert_eq!("Bank", longest_common_prefix(&v));
}

#[test]
fn lcp_util_of_disjoint_strings_is_empty() {
    assert_eq!("", lcp_util("alpha".to_string(), "beta".to_string()));
}

#[test]
fn lcp_util_of_a_string_and_its_extension_is_the_string() {
    assert_eq!("Bank", lcp_util("Bank".to_string(), "Bank2".to_string()));
}

#[test]
fn typeahead_extends_an_unambiguous_prefix_without_listing() {
    let idx = bank_index();

    let (buffer, listed) = typeahead(&idx, &"B".to_string());

    assert_eq!("Bank", buffer);
    assert!(!listed);
}

#[test]
fn typeahead_at_the_boundary_lists_the_candidates() {
    let idx = bank_index();

    let (buffer, listed) = typeahead(&idx, &"Bank".to_string());

    assert_eq!("Bank", buffer);
    assert!(listed);
    let candidates = idx.lookup_prefix(&"Bank".to_string());
    assert_eq!(vec!["Bank".to_string(), "Bank2".to_string()], candidates);
}

#[test]
fn typeahead_at_a_boundary_is_idempotent() {
    let idx = bank_index();

    let (first, listed_first) = typeahead(&idx, &"Bank".to_string());
    let (second, listed_second) = typeahead(&idx, &first);

    assert_eq!("Bank", first);
    assert_eq!(first, second);
    assert_eq!(listed_first, listed_second);
}

#[test]
fn typeahead_with_no_candidate_leaves_the_buffer_unchanged() {
    let idx = bank_index();

    let (buffer, listed) = typeahead(&idx, &"Card".to_string());

    assert_eq!("Card", buffer);
    assert!(!listed);
}

#[test]
fn typeahead_on_an_empty_buffer_lists_the_whole_candidate_universe() {
    let idx = CredentialIndex::build(&vec![record("Bank", "a"), record("Card", "b")]);

    let (buffer, listed) = typeahead(&idx, &String::new());

    assert_eq!("", buffer);
    assert!(listed);
    let candidates = idx.lookup_prefix(&String::new());
    assert_eq!(vec!["Bank".to_string(), "Card".to_string()], candidates);
}

#[test]
fn lookup_exact_returns_the_associated_secret() {
    let idx = bank_index();

    assert_eq!(Some("secretA".to_string()), idx.lookup_exact(&"Bank".to_string()));
    assert_eq!(Some("secretB".to_string()), idx.lookup_exact(&"Bank2".to_string()));
}

#[test]
fn lookup_exact_of_an_absent_title_is_not_found() {
    let idx = bank_index();

    assert_eq!(None, idx.lookup_exact(&"Missing".to_string()));
}

#[test]
fn records_without_plain_title_or_protected_secret_are_excluded() {
    let records = vec![
        record("Bank", "secretA"),
        CredentialRecord {
            title: StringField::Missing,
            secret: StringField::Protected("hidden".to_string()),
        },
        CredentialRecord {
            title: StringField::Plain("Site".to_string()),
            secret: StringField::Plain("visible".to_string()),
        },
        CredentialRecord {
            title: StringField::Protected("Vault".to_string()),
            secret: StringField::Protected("sealed".to_string()),
        },
    ];

    let idx = CredentialIndex::build(&records);

    assert_eq!(vec!["Bank".to_string()], idx.lookup_prefix(&String::new()));
    assert_eq!(None, idx.lookup_exact(&"Site".to_string()));
    assert_eq!(None, idx.lookup_exact(&"Vault".to_string()));
}

#[test]
fn duplicate_titles_resolve_to_the_last_written_secret() {
    let idx = CredentialIndex::build(&vec![record("Dup", "first"), record("Dup", "second")]);

    assert_eq!(Some("second".to_string()), idx.lookup_exact(&"Dup".to_string()));
    assert_eq!(vec!["Dup".to_string()], idx.lookup_prefix(&String::new()));
}

#[test]
fn prefix_lookup_returns_titles_in_sorted_order() {
    let idx = CredentialIndex::build(&vec![
        record("zeta", "1"),
        record("alpha", "2"),
        record("beta", "3"),
    ]);

    let titles = idx.lookup_prefix(&String::new());

    assert_eq!(
        vec!["alpha".to_string(), "beta".to_string(), "zeta".to_string()],
        titles
    );
}

#[test]
fn backspace_on_an_empty_buffer_is_a_no_op() {
    let idx = bank_index();

    let out = step(&idx, String::new(), 0x7f);

    assert_eq!("", out.buffer);
    assert!(!out.done);
    assert!(!out.listed);
}

#[test]
fn backspace_removes_the_last_character() {
    let idx = bank_index();

    let out = step(&idx, "Ban".to_string(), 0x7f);

    assert_eq!("Ba", out.buffer);
    assert!(!out.done);
}

#[test]
fn newline_finalizes_the_buffer() {
    let idx = bank_index();

    let out = step(&idx, "Bank".to_string(), b'\n');

    assert_eq!("Bank", out.buffer);
    assert!(out.done);
    assert!(!out.listed);
}

#[test]
fn printable_characters_are_appended() {
    let idx = bank_index();

    let out = step(&idx, "Ban".to_string(), b'k');

    assert_eq!("Bank", out.buffer);
    assert!(!out.done);
}

#[test]
fn tab_runs_the_typeahead_resolver() {
    let idx = bank_index();

    let out = step(&idx, "B".to_string(), b'\t');

    assert_eq!("Bank", out.buffer);
    assert!(!out.done);
    assert!(!out.listed);
}
