use lexgate::domain::{CasePayload, CaseUpdatePayload, Field, GatewayError};
use lexgate::store::Database;

fn seeded() -> Database {
    let mut db = Database::new();
    let p = lexgate::codec::extract_query_values(
        "nome=Ana&email=ana%40ex.com&tipoCliente=fisica&cpf=1",
    )
    .unwrap();
    db.create_client(&p, lexgate::dates::Date { year: 2024, month: 1, day: 2 }).unwrap();
    db.add_lawyer(
        "Rui".to_string(),
        "OAB-1".to_string(),
        None,
        None,
        Some("civil".to_string()),
    )
    .unwrap();
    db.add_status("Aberto".to_string());
    db.add_court("Vara Central".to_string());
    db.add_category("Trabalhista".to_string());
    db
}

fn payload() -> CasePayload {
    CasePayload {
        id_cliente: 1,
        id_advogado: 1,
        id_status: 1,
        id_vara_judicial: Some(1),
        id_categoria_caso: Some(1),
        descricao: Some("disputa".to_string()),
        numero_processo: Some("0001-XYZ".to_string()),
        data_abertura: "2024-03-10".to_string(),
        data_fechamento: None,
    }
}

#[test]
fn create_case_with_missing_client_is_rejected() {
    let mut db = seeded();
    let mut p = payload();
    p.id_cliente = 42;
    assert_eq!(
        db.create_case(&p).unwrap_err(),
        GatewayError::ReferencedEntityMissing(Field::IdCliente)
    );
    assert_eq!(db.list_cases().len(), 0);
}

#[test]
fn every_foreign_key_is_probed() {
    let mut db = seeded();
    let mut p = payload();
    p.id_advogado = 9;
    assert_eq!(
        db.create_case(&p).unwrap_err(),
        GatewayError::ReferencedEntityMissing(Field::IdAdvogado)
    );
    let mut p = payload();
    p.id_status = 9;
    assert_eq!(
        db.create_case(&p).unwrap_err(),
        GatewayError::ReferencedEntityMissing(Field::IdStatus)
    );
    let mut p = payload();
    p.id_vara_judicial = Some(9);
    assert_eq!(
        db.create_case(&p).unwrap_err(),
        GatewayError::ReferencedEntityMissing(Field::IdVaraJudicial)
    );
    let mut p = payload();
    p.id_categoria_caso = Some(9);
    assert_eq!(
        db.create_case(&p).unwrap_err(),
        GatewayError::ReferencedEntityMissing(Field::IdCategoriaCaso)
    );
}

#[test]
fn bad_open_date_is_rejected_before_the_probes() {
    let mut db = seeded();
    let mut p = payload();
    p.data_abertura = "10/03/2024".to_string();
    p.id_cliente = 42;
    assert_eq!(
        db.create_case(&p).unwrap_err(),
        GatewayError::InvalidDate(Field::DataAbertura)
    );
}

#[test]
fn malformed_close_date_is_silently_dropped() {
    let mut db = seeded();
    let mut p = payload();
    p.data_fechamento = Some("soon".to_string());
    let id = db.create_case(&p).unwrap();
    let v = db.get_case(id).unwrap();
    assert_eq!(v.data_fechamento, None);
    assert_eq!(v.data_abertura, "2024-03-10");
}

#[test]
fn created_case_reads_back_joined() {
    let mut db = seeded();
    let id = db.create_case(&payload()).unwrap();
    let v = db.get_case(id).unwrap();
    assert_eq!(v.id_caso, 1);
    assert_eq!(v.cliente_nome, "Ana");
    assert_eq!(v.cliente_email.as_deref(), Some("ana@ex.com"));
    assert_eq!(v.advogado_nome, "Rui");
    assert_eq!(v.advogado_oab, "OAB-1");
    assert_eq!(v.status_descricao, "Aberto");
    assert_eq!(v.nome_vara.as_deref(), Some("Vara Central"));
    assert_eq!(v.categoria_descricao.as_deref(), Some("Trabalhista"));
    assert_eq!(v.numero_processo.as_deref(), Some("0001-XYZ"));
}

#[test]
fn duplicate_process_number_is_a_constraint_violation() {
    let mut db = seeded();
    db.create_case(&payload()).unwrap();
    assert_eq!(db.create_case(&payload()).unwrap_err(), GatewayError::ConstraintViolation);
}

#[test]
fn update_of_zero_rows_is_not_found() {
    let mut db = seeded();
    let upd = CaseUpdatePayload {
        id_caso: 99,
        id_cliente: 1,
        id_advogado: 1,
        id_status: 1,
        id_vara_judicial: None,
        id_categoria_caso: None,
        descricao: None,
        numero_processo: None,
        data_abertura: "2024-03-11".to_string(),
        data_fechamento: None,
    };
    assert_eq!(db.update_case(&upd).unwrap_err(), GatewayError::NotFound);
    assert_eq!(db.list_cases().len(), 0);
}

#[test]
fn update_replaces_the_whole_record() {
    let mut db = seeded();
    let id = db.create_case(&payload()).unwrap();
    let upd = CaseUpdatePayload {
        id_caso: id,
        id_cliente: 1,
        id_advogado: 1,
        id_status: 1,
        id_vara_judicial: None,
        id_categoria_caso: None,
        descricao: None,
        numero_processo: Some("0002-XYZ".to_string()),
        data_abertura: "2024-04-01".to_string(),
        data_fechamento: Some("2024-05-01".to_string()),
    };
    db.update_case(&upd).unwrap();
    let v = db.get_case(id).unwrap();
    assert_eq!(v.numero_processo.as_deref(), Some("0002-XYZ"));
    assert_eq!(v.data_abertura, "2024-04-01");
    assert_eq!(v.data_fechamento.as_deref(), Some("2024-05-01"));
    assert_eq!(v.nome_vara, None);
    assert_eq!(v.descricao, None);
}

#[test]
fn case_list_is_newest_first() {
    let mut db = seeded();
    let mut a = payload();
    a.numero_processo = Some("A".to_string());
    a.data_abertura = "2023-01-01".to_string();
    let mut b = payload();
    b.numero_processo = Some("B".to_string());
    b.data_abertura = "2024-01-01".to_string();
    db.create_case(&a).unwrap();
    db.create_case(&b).unwrap();
    let rows = db.list_cases();
    assert_eq!(rows.len(), 2);
    assert_eq!(rows[0].data_abertura, "2024-01-01");
    assert_eq!(rows[1].data_abertura, "2023-01-01");
}

#[test]
fn case_with_documents_cannot_be_deleted() {
    let mut db = seeded();
    let id = db.create_case(&payload()).unwrap();
    let doc = lexgate::domain::DocumentPayload {
        id_caso: id,
        descricao: "laudo".to_string(),
        data_envio: "2024-03-12".to_string(),
        nome_arquivo: "laudo.pdf".to_string(),
        arquivo_base64: "aGVsbG8=".to_string(),
    };
    db.create_document(&doc).unwrap();
    assert_eq!(db.delete_case(id).unwrap_err(), GatewayError::ConstraintViolation);
    assert_eq!(db.delete_case(77).unwrap_err(), GatewayError::NotFound);
}

#[test]
fn referenced_client_cannot_be_deleted() {
    let mut db = seeded();
    db.create_case(&payload()).unwrap();
    assert_eq!(db.delete_client(1).unwrap_err(), GatewayError::ConstraintViolation);
}
