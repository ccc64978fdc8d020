use zapzap::contacts::ContactBook;

fn book(names: &[&str]) -> ContactBook {
    let mut book = ContactBook::new();
    for name in names {
        book.insert(name);
    }
    book
}

#[test]
fn numbers_come_first_then_letters_without_regard_to_accents_or_case() {
    let book = book(&["Zé", "Ana", "álvaro", "996985554", "bruno", "Ângela"]);
    assert_eq!(book.search("", 10), ["996985554", "álvaro", "Ana", "Ângela", "bruno", "Zé"]);
}

#[test]
fn a_contact_remembers_the_id_it_was_first_given() {
    let mut book = ContactBook::new();
    book.insert("Ana");
    assert_eq!(book.id_of("Ana"), None);
    book.insert_with_id("Ana", Some("5511@s.whatsapp.net"));
    book.insert_with_id("Ana", Some("other"));
    assert_eq!(book.id_of("Ana"), Some("5511@s.whatsapp.net"));
    assert_eq!(book.id_of("Bia"), None);
}

#[test]
fn a_name_is_kept_once() {
    let book = book(&["Ana", "Ana", " Ana "]);
    assert_eq!(book.len(), 1);
}

#[test]
fn empty_and_unsafe_names_are_ignored() {
    let book = book(&["", "  ", "a\tb", "a\nb"]);
    assert!(book.is_empty());
}

#[test]
fn searching_ignores_accents_and_case_and_finds_the_middle_of_a_name() {
    let book = book(&["João Silva", "Maria", "Sílvia"]);
    assert_eq!(book.search("SILV", 10), ["João Silva", "Sílvia"]);
    assert_eq!(book.search("joao", 10), ["João Silva"]);
}

#[test]
fn the_limit_keeps_the_first_names() {
    let book = book(&["a", "b", "c", "d"]);
    assert_eq!(book.search("", 2), ["a", "b"]);
}

#[test]
fn names_the_same_but_for_case_are_one_contact() {
    let book = book(&["ana", "ANA", "Ana"]);
    assert_eq!(book.search("", 10), ["ana"]);
    assert_eq!(book.search("", 0), Vec::<&str>::new());
}

#[test]
fn a_search_gives_names_in_the_book_order_once_each() {
    let mut book = ContactBook::new();
    for name in ["Zé", "álvaro", "Ana", "ana", "  Bia ", "7 Irmãos", "Mariana"] {
        book.insert(name);
    }
    assert_eq!(book.search("a", 10), vec!["7 Irmãos", "álvaro", "Ana", "Bia", "Mariana"]);
    assert_eq!(book.search("a", 2), vec!["7 Irmãos", "álvaro"]);
}
