use soroban_governance::ballot::{Choice, parse_choice, saturating_add_i128, saturating_sub_i128};
use soroban_governance::bytes::{bytes_eq, bytes_less, contains_bytes};
use soroban_governance::delegates::{add_all, remove_all, set_of};
use soroban_governance::table::Table;
use soroban_governance::ttl::ttl_for;

fn sym(s: &str) -> Vec<u8> {
    s.as_bytes().to_vec()
}

#[test]
fn choices_are_read_from_symbols() {
    assert_eq!(parse_choice(&sym("FOR")), Some(Choice::For));
    assert_eq!(parse_choice(&sym("AGAINST")), Some(Choice::Against));
    assert_eq!(parse_choice(&sym("ABSTAIN")), Some(Choice::Abstain));
    assert_eq!(parse_choice(&sym("for")), None);
    assert_eq!(parse_choice(&sym("FORX")), None);
    assert_eq!(parse_choice(&sym("")), None);
}

#[test]
fn saturating_tallies() {
    assert_eq!(saturating_add_i128(2, 3), 5);
    assert_eq!(saturating_add_i128(i128::MAX, 1), i128::MAX);
    assert_eq!(saturating_add_i128(i128::MIN, -1), i128::MIN);
    assert_eq!(saturating_sub_i128(5, 7), -2);
    assert_eq!(saturating_sub_i128(i128::MIN, 1), i128::MIN);
    assert_eq!(saturating_sub_i128(i128::MAX, -1), i128::MAX);
}

#[test]
fn byte_strings_compare_by_content() {
    assert!(bytes_eq(&sym("abc"), &sym("abc")));
    assert!(!bytes_eq(&sym("abc"), &sym("abd")));
    assert!(!bytes_eq(&sym("abc"), &sym("ab")));
    assert!(contains_bytes(&vec![sym("x"), sym("y")], &sym("y")));
    assert!(!contains_bytes(&vec![sym("x"), sym("y")], &sym("z")));
}

#[test]
fn table_insert_get_remove() {
    let mut t: Table<Vec<u8>, i128> = Table::new();
    t.insert(sym("a"), 1);
    t.insert(sym("b"), 2);
    t.insert(sym("a"), 3);
    assert_eq!(t.len(), 2);
    assert_eq!(t.get(&sym("a")), Some(&3));
    assert_eq!(t.key_at(0), &sym("a"));
    assert_eq!(t.value_at(1), &2);
    assert_eq!(t.remove(&sym("a")), Some(3));
    assert_eq!(t.remove(&sym("a")), None);
    assert!(!t.contains_key(&sym("a")));
    assert!(t.contains_key(&sym("b")));
    let copy = t.copy();
    assert_eq!(copy.get(&sym("b")), Some(&2));
    assert_eq!(copy.len(), 1);
}

#[test]
fn delegate_sets() {
    let mut s = set_of(&vec![sym("d1"), sym("d2"), sym("d1")]);
    assert_eq!(s.len(), 2);
    add_all(&mut s, &vec![sym("d3"), sym("d2")]);
    assert_eq!(s.len(), 3);
    remove_all(&mut s, &vec![sym("d1"), sym("zz")]);
    assert_eq!(s.len(), 2);
    assert!(!s.contains_key(&sym("d1")));
    assert!(s.contains_key(&sym("d3")));
}

#[test]
fn entry_lifetimes() {
    assert_eq!(ttl_for(100, 50, 7), 604_800);
    assert_eq!(ttl_for(100, 50, 2_100_000), 2_100_000);
    assert_eq!(ttl_for(0, 4_000_000, 2_100_000), 4_604_800);
    // The time left is cut to 32 bits, as the contracts cut it.
    assert_eq!(ttl_for(0, (1u64 << 32) + 5, 0), 604_805);
}

#[test]
fn tables_from_entries_keep_the_last_value() {
    let t: Table<Vec<u8>, i128> = Table::from_entries(vec![(sym("a"), 1), (sym("b"), 2), (sym("a"), 3)]);
    assert!(t.is_well_formed());
    assert_eq!(t.len(), 2);
    assert_eq!(t.get(&sym("a")), Some(&3));
    assert_eq!(t.get(&sym("b")), Some(&2));
    let empty: Table<Vec<u8>, i128> = Table::from_entries(vec![]);
    assert_eq!(empty.len(), 0);
}

#[test]
fn id_lists_name_each_key_once() {
    let t: Table<Vec<u8>, i128> = Table::from_entries(vec![(sym("p1"), 1), (sym("p2"), 2)]);
    assert!(t.lists_keys_once(&vec![sym("p1"), sym("p2")]));
    assert!(t.lists_keys_once(&vec![sym("p2"), sym("p1")]));
    assert!(!t.lists_keys_once(&vec![sym("p1")]));
    assert!(!t.lists_keys_once(&vec![sym("p1"), sym("p1")]));
    assert!(!t.lists_keys_once(&vec![sym("p1"), sym("p3")]));
    assert!(!t.lists_keys_once(&vec![sym("p1"), sym("p2"), sym("p2")]));
    let empty: Table<Vec<u8>, i128> = Table::new();
    assert!(empty.lists_keys_once(&vec![]));
}

#[test]
fn byte_order_is_symbol_order() {
    assert!(bytes_less(&sym("A"), &sym("Z")));
    assert!(!bytes_less(&sym("Z"), &sym("A")));
    assert!(bytes_less(&sym("AB"), &sym("ABC")));
    assert!(!bytes_less(&sym("ABC"), &sym("AB")));
    assert!(!bytes_less(&sym("AB"), &sym("AB")));
    assert!(bytes_less(&sym("Z"), &sym("a")));
    assert!(bytes_less(&sym(""), &sym("_")));
}

#[test]
fn tables_keep_first_insertion_order() {
    let t: Table<Vec<u8>, i128> = Table::from_entries(vec![(sym("b"), 1), (sym("a"), 2), (sym("b"), 3)]);
    assert_eq!(t.key_at(0), &sym("b"));
    assert_eq!(t.value_at(0), &3);
    assert_eq!(t.key_at(1), &sym("a"));
    let mut u: Table<Vec<u8>, i128> = Table::new();
    u.insert(sym("x"), 1);
    u.insert(sym("y"), 2);
    u.insert(sym("x"), 5);
    assert_eq!((u.key_at(0), u.value_at(0)), (&sym("x"), &5));
    assert_eq!(u.key_at(1), &sym("y"));
    assert_eq!(u.remove(&sym("x")), Some(5));
    assert_eq!(u.key_at(0), &sym("y"));
}
