use base64::Engine;
use lexgate::documents::DownloadError;
use lexgate::domain::{DocumentPayload, DocumentUpdatePayload, Field, GatewayError};
use lexgate::store::Database;

fn seeded_with_case() -> Database {
    let mut db = Database::new();
    let p = lexgate::codec::extract_query_values(
        "nome=Ana&email=ana%40ex.com&tipoCliente=fisica&cpf=1",
    )
    .unwrap();
    db.create_client(&p, lexgate::dates::Date { year: 2024, month: 1, day: 2 }).unwrap();
    db.add_lawyer("Rui".to_string(), "OAB-1".to_string(), None, None, None).unwrap();
    db.add_status("Aberto".to_string());
    let caso = lexgate::domain::CasePayload {
        id_cliente: 1,
        id_advogado: 1,
        id_status: 1,
        id_vara_judicial: None,
        id_categoria_caso: None,
        descricao: None,
        numero_processo: None,
        data_abertura: "2024-02-02".to_string(),
        data_fechamento: None,
    };
    db.create_case(&caso).unwrap();
    db
}

fn doc_payload(name: &str, bytes: &[u8]) -> DocumentPayload {
    DocumentPayload {
        id_caso: 1,
        descricao: "prova".to_string(),
        data_envio: "2024-02-03".to_string(),
        nome_arquivo: name.to_string(),
        arquivo_base64: base64::engine::general_purpose::STANDARD.encode(bytes),
    }
}

#[test]
fn download_round_trips_the_content() {
    let mut db = seeded_with_case();
    let content: &[u8] = b"conteudo do laudo";
    let id = db.create_document(&doc_payload("laudo.pdf", content)).unwrap();
    let f = db.download_document(id).unwrap();
    assert_eq!(f.bytes, content);
    assert_eq!(f.nome_arquivo, "laudo.pdf");
    assert_eq!(f.content_type, "application/pdf");
    assert_eq!(f.content_disposition, "attachment; filename=\"laudo.pdf\"");
}

#[test]
fn unknown_extension_falls_back_to_octet_stream() {
    let mut db = seeded_with_case();
    let id = db.create_document(&doc_payload("blob.estranho", b"x")).unwrap();
    let f = db.download_document(id).unwrap();
    assert_eq!(f.content_type, "application/octet-stream");
}

#[test]
fn invalid_base64_is_rejected() {
    let mut db = seeded_with_case();
    let mut p = doc_payload("a.txt", b"x");
    p.arquivo_base64 = "not base64!!".to_string();
    assert_eq!(
        db.create_document(&p).unwrap_err(),
        GatewayError::Validation(Field::ArquivoBase64)
    );
    assert_eq!(db.list_documents().len(), 0);
}

#[test]
fn document_needs_an_existing_case() {
    let mut db = seeded_with_case();
    let mut p = doc_payload("a.txt", b"x");
    p.id_caso = 9;
    assert_eq!(
        db.create_document(&p).unwrap_err(),
        GatewayError::ReferencedEntityMissing(Field::IdCaso)
    );
}

#[test]
fn listing_serves_metadata_only() {
    let mut db = seeded_with_case();
    db.create_document(&doc_payload("b.txt", b"conteudo")).unwrap();
    let rows = db.list_documents();
    assert_eq!(rows.len(), 1);
    assert_eq!(rows[0].id_documento, 1);
    assert_eq!(rows[0].id_caso, 1);
    assert_eq!(rows[0].descricao, "prova");
    assert_eq!(rows[0].data_envio.as_deref(), Some("2024-02-03"));
    assert_eq!(rows[0].nome_arquivo, "b.txt");
}

#[test]
fn update_without_a_file_keeps_the_stored_bytes() {
    let mut db = seeded_with_case();
    let id = db.create_document(&doc_payload("a.txt", b"primeiro")).unwrap();
    let upd = DocumentUpdatePayload {
        id,
        id_caso: 1,
        descricao: "nova descricao".to_string(),
        data_envio: "2024-02-04".to_string(),
        nome_arquivo: "a2.txt".to_string(),
        arquivo_base64: None,
    };
    db.update_document(&upd).unwrap();
    let f = db.download_document(id).unwrap();
    assert_eq!(f.bytes, b"primeiro");
    assert_eq!(f.nome_arquivo, "a2.txt");
    let meta = db.get_document(id).unwrap();
    assert_eq!(meta.descricao, "nova descricao");
}

#[test]
fn update_with_a_file_replaces_the_stored_bytes() {
    let mut db = seeded_with_case();
    let id = db.create_document(&doc_payload("a.txt", b"primeiro")).unwrap();
    let upd = DocumentUpdatePayload {
        id,
        id_caso: 1,
        descricao: "d".to_string(),
        data_envio: "2024-02-04".to_string(),
        nome_arquivo: "a.txt".to_string(),
        arquivo_base64: Some(base64::engine::general_purpose::STANDARD.encode(b"segundo")),
    };
    db.update_document(&upd).unwrap();
    assert_eq!(db.download_document(id).unwrap().bytes, b"segundo");
}

#[test]
fn update_of_unknown_document_is_not_found() {
    let mut db = seeded_with_case();
    let upd = DocumentUpdatePayload {
        id: 7,
        id_caso: 1,
        descricao: "d".to_string(),
        data_envio: "2024-02-04".to_string(),
        nome_arquivo: "a.txt".to_string(),
        arquivo_base64: None,
    };
    assert_eq!(db.update_document(&upd).unwrap_err(), GatewayError::NotFound);
}

#[test]
fn download_of_unknown_document_is_not_found() {
    let db = Database::new();
    assert_eq!(db.download_document(1).unwrap_err(), DownloadError::DocumentNotFound);
}

#[test]
fn download_of_a_row_without_bytes_reports_missing_content() {
    let mut db = seeded_with_case();
    let id = db.create_document(&doc_payload("vazio.pdf", b"x")).unwrap();
    db.documents[0].arquivo = None;
    assert_eq!(db.download_document(id).unwrap_err(), DownloadError::ContentMissing);
}

#[test]
fn delete_document_then_gone() {
    let mut db = seeded_with_case();
    let id = db.create_document(&doc_payload("a.txt", b"x")).unwrap();
    db.delete_document(id).unwrap();
    assert_eq!(db.get_document(id).unwrap_err(), GatewayError::NotFound);
    assert_eq!(db.delete_document(id).unwrap_err(), GatewayError::NotFound);
}

#[test]
fn document_lists_order_by_date_and_by_name() {
    let mut db = seeded_with_case();
    let mut a = doc_payload("zeta.txt", b"1");
    a.data_envio = "2024-01-01".to_string();
    let mut b = doc_payload("alfa.txt", b"2");
    b.data_envio = "2024-03-01".to_string();
    db.create_document(&a).unwrap();
    db.create_document(&b).unwrap();
    let by_date = db.list_documents();
    assert_eq!(by_date[0].nome_arquivo, "alfa.txt");
    assert_eq!(by_date[1].nome_arquivo, "zeta.txt");
    let by_name = db.list_documents_by_name();
    assert_eq!(by_name[0].nome_arquivo, "alfa.txt");
    assert_eq!(by_name[1].nome_arquivo, "zeta.txt");
    assert_eq!(by_name[0].id_documento, 2);
}
