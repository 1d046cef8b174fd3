use base64::Engine;
use lexgate::domain::DocumentPayload;
use lexgate::qa::{generation_prompt, model_options, QaError};
use lexgate::store::Database;

fn db_with_document(name: &str, bytes: &[u8]) -> Database {
    let mut db = Database::new();
    let p = lexgate::codec::extract_query_values(
        "nome=Ana&email=ana%40ex.com&tipoCliente=fisica&cpf=1",
    )
    .unwrap();
    db.create_client(&p, lexgate::dates::Date { year: 2024, month: 1, day: 2 }).unwrap();
    db.add_lawyer("Rui".to_string(), "OAB-1".to_string(), None, None, None).unwrap();
    db.add_status("Aberto".to_string());
    db.create_case(&lexgate::domain::CasePayload {
        id_cliente: 1,
        id_advogado: 1,
        id_status: 1,
        id_vara_judicial: None,
        id_categoria_caso: None,
        descricao: None,
        numero_processo: None,
        data_abertura: "2024-02-02".to_string(),
        data_fechamento: None,
    })
    .unwrap();
    db.create_document(&DocumentPayload {
        id_caso: 1,
        descricao: "doc".to_string(),
        data_envio: "2024-02-03".to_string(),
        nome_arquivo: name.to_string(),
        arquivo_base64: base64::engine::general_purpose::STANDARD.encode(bytes),
    })
    .unwrap();
    db
}

#[test]
fn unknown_file_name_is_not_found() {
    let db = db_with_document("laudo.pdf", b"conteudo");
    assert_eq!(
        db.find_document_by_name("outro.pdf").unwrap_err(),
        QaError::DocumentNotFound
    );
}

#[test]
fn single_match_yields_the_stored_bytes() {
    let db = db_with_document("laudo.pdf", b"conteudo do laudo");
    assert_eq!(db.find_document_by_name("laudo.pdf").unwrap(), b"conteudo do laudo");
}

#[test]
fn duplicate_file_names_are_ambiguous() {
    let mut db = db_with_document("laudo.pdf", b"um");
    db.create_document(&DocumentPayload {
        id_caso: 1,
        descricao: "outro".to_string(),
        data_envio: "2024-02-04".to_string(),
        nome_arquivo: "laudo.pdf".to_string(),
        arquivo_base64: base64::engine::general_purpose::STANDARD.encode(b"dois"),
    })
    .unwrap();
    assert_eq!(
        db.find_document_by_name("laudo.pdf").unwrap_err(),
        QaError::AmbiguousName
    );
}

#[test]
fn content_by_id_yields_the_stored_bytes() {
    let db = db_with_document("nota.pdf", b"bytes da nota");
    assert_eq!(db.document_content(1).unwrap(), b"bytes da nota");
    assert_eq!(db.document_content(9).unwrap_err(), QaError::DocumentNotFound);
}

#[test]
fn content_of_a_row_without_bytes_is_missing() {
    let mut db = db_with_document("nota.pdf", b"x");
    db.documents[0].arquivo = None;
    assert_eq!(db.document_content(1).unwrap_err(), QaError::ContentMissing);
    assert_eq!(
        db.find_document_by_name("nota.pdf").unwrap_err(),
        QaError::ContentMissing
    );
}

#[test]
fn prompt_wraps_the_extracted_text_and_question() {
    let extracted = Some("O contrato vence em maio.".to_string());
    let expected = format!(
        "Com base no seguinte documento, responda à pergunta do usuário. Se a informação não estiver no documento, diga que não pode responder.\n\nDocumento:\n```\n{}\n```\n\nPergunta do Usuário: {}",
        "O contrato vence em maio.", "quando vence?"
    );
    assert_eq!(generation_prompt(&extracted, "quando vence?").unwrap(), expected);
}

#[test]
fn absent_extraction_is_an_extraction_error() {
    assert_eq!(
        generation_prompt(&None, "pergunta").unwrap_err(),
        QaError::Extraction
    );
}

#[test]
fn model_names_become_value_and_label() {
    let names = vec!["llama3".to_string(), "mistral".to_string()];
    let opts = model_options(&names);
    assert_eq!(opts.len(), 2);
    assert_eq!(opts[0].id, "llama3");
    assert_eq!(opts[0].nome, "llama3");
    assert_eq!(opts[1].id, "mistral");
}
