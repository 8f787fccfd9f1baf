use libs_tools::cli::{AgendaKind, Args};

#[test]
fn agenda_names_are_verbatim() {
    assert_eq!(AgendaKind::from_name("Libs"), Some(AgendaKind::Libs));
    assert_eq!(AgendaKind::from_name("PgEh"), Some(AgendaKind::PgEh));
    assert_eq!(AgendaKind::from_name("libs"), None);
    assert_eq!(AgendaKind::from_name("PGEH"), None);
    assert_eq!(AgendaKind::from_name(""), None);
}

#[test]
fn the_default_agenda_is_libs() {
    assert_eq!(Args::default_args().agenda, AgendaKind::Libs);
}
