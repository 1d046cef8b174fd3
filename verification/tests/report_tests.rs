use base64::Engine;
use lexgate::dates::Date;
use lexgate::domain::{CasePayload, DocumentPayload};
use lexgate::store::Database;

fn base64_of(bytes: &[u8]) -> String {
    base64::engine::general_purpose::STANDARD.encode(bytes)
}

fn build() -> Database {
    let mut db = Database::new();
    for (nome, cpf) in [("Ana", "1"), ("Bia", "2")] {
        let q = format!("nome={}&email=e%40e.e&tipoCliente=fisica&cpf={}", nome, cpf);
        db.create_client(
            &lexgate::codec::extract_query_values(&q).unwrap(),
            Date { year: 2024, month: 1, day: 1 },
        )
        .unwrap();
    }
    db.add_lawyer("Rui".to_string(), "OAB-1".to_string(), None, None, None).unwrap();
    db.add_lawyer("Zoe".to_string(), "OAB-2".to_string(), None, None, None).unwrap();
    db.add_status("Aberto".to_string());
    db.add_status("Fechado".to_string());
    let mk = |id_cliente: i32, id_advogado: i32, id_status: i32, numero: &str| CasePayload {
        id_cliente,
        id_advogado,
        id_status,
        id_vara_judicial: None,
        id_categoria_caso: None,
        descricao: None,
        numero_processo: Some(numero.to_string()),
        data_abertura: "2024-02-01".to_string(),
        data_fechamento: None,
    };
    db.create_case(&mk(1, 1, 1, "P-1")).unwrap();
    db.create_case(&mk(1, 1, 1, "P-2")).unwrap();
    db.create_case(&mk(2, 2, 2, "P-3")).unwrap();
    for (caso, nome) in [(1, "a.txt"), (1, "b.txt"), (2, "c.txt"), (3, "d.txt")] {
        db.create_document(&DocumentPayload {
            id_caso: caso,
            descricao: "doc".to_string(),
            data_envio: "2024-02-05".to_string(),
            nome_arquivo: nome.to_string(),
            arquivo_base64: base64_of(b"x"),
        })
        .unwrap();
    }
    db
}

#[test]
fn documents_report_groups_and_counts() {
    let db = build();
    let rows = db.report_documents_by_client_case();
    assert_eq!(rows.len(), 3);
    assert_eq!(rows[0].cliente_nome, "Ana");
    assert_eq!(rows[0].numero_processo.as_deref(), Some("P-1"));
    assert_eq!(rows[0].total_documentos, 2);
    assert_eq!(rows[1].cliente_nome, "Ana");
    assert_eq!(rows[1].numero_processo.as_deref(), Some("P-2"));
    assert_eq!(rows[1].total_documentos, 1);
    assert_eq!(rows[2].cliente_nome, "Bia");
    assert_eq!(rows[2].numero_processo.as_deref(), Some("P-3"));
    assert_eq!(rows[2].total_documentos, 1);
}

#[test]
fn cases_report_groups_and_counts() {
    let db = build();
    let rows = db.report_cases_by_lawyer_status();
    assert_eq!(rows.len(), 2);
    assert_eq!(rows[0].advogado_nome, "Rui");
    assert_eq!(rows[0].status_descricao, "Aberto");
    assert_eq!(rows[0].total_casos, 2);
    assert_eq!(rows[1].advogado_nome, "Zoe");
    assert_eq!(rows[1].status_descricao, "Fechado");
    assert_eq!(rows[1].total_casos, 1);
}

#[test]
fn reports_on_an_empty_store_are_empty() {
    let db = Database::new();
    assert_eq!(db.report_documents_by_client_case().len(), 0);
    assert_eq!(db.report_cases_by_lawyer_status().len(), 0);
}

#[test]
fn lookup_lists_are_sorted() {
    let mut db = Database::new();
    db.add_status("Suspenso".to_string());
    db.add_status("Aberto".to_string());
    db.add_court("Vara B".to_string());
    db.add_court("Vara A".to_string());
    db.add_lawyer("Zoe".to_string(), "OAB-9".to_string(), None, None, None).unwrap();
    db.add_lawyer("Ana".to_string(), "OAB-8".to_string(), None, None, None).unwrap();
    let st: Vec<String> = db.list_statuses().into_iter().map(|s| s.nome).collect();
    assert_eq!(st, vec!["Aberto".to_string(), "Suspenso".to_string()]);
    let ct: Vec<String> = db.list_courts().into_iter().map(|c| c.nome).collect();
    assert_eq!(ct, vec!["Vara A".to_string(), "Vara B".to_string()]);
    let lw = db.list_lawyers();
    assert_eq!(lw[0].nome, "Ana");
    assert_eq!(lw[0].oab, "OAB-8");
    assert_eq!(lw[1].nome, "Zoe");
}

#[test]
fn duplicate_bar_number_is_rejected() {
    let mut db = Database::new();
    db.add_lawyer("Rui".to_string(), "OAB-1".to_string(), None, None, None).unwrap();
    assert!(db
        .add_lawyer("Outro".to_string(), "OAB-1".to_string(), None, None, None)
        .is_err());
    assert_eq!(db.list_lawyers().len(), 1);
}
