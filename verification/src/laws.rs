//! The laws of the write paths, stated on their own: each one says in one
//! place what the gateway contracts promise about a rejected or re-read
//! operation, and is proved from the same specs the gateways are verified
//! against.

use vstd::prelude::*;
use crate::cases::{create_case_spec, update_case_spec};
use crate::clients::{create_client_spec, update_client_spec};
use crate::dates::{Date, parse_date_spec};
use crate::documents::{b64_decoded, create_document_spec, download_spec};
use crate::domain::{CasePayloadModel, CaseUpdateModel, DocumentPayloadModel, Field, GatewayError};
use crate::store::DbModel;

verus! {

/// A physical-person create without its national id fails validation and
/// commits nothing: the store is exactly what it was.
pub proof fn lemma_create_client_requires_cpf(m: DbModel, p: Map<Seq<char>, Seq<char>>, today: Date)
    requires
        p.contains_key("nome"@),
        p.contains_key("email"@),
        p.contains_key("tipoCliente"@),
        p["tipoCliente"@] == "fisica"@,
        !p.contains_key("cpf"@),
    ensures
        create_client_spec(m, p, today).0 == m,
        create_client_spec(m, p, today).1 == Err::<i32, GatewayError>(
            GatewayError::Validation(Field::Cpf),
        ),
{
}

/// A case create that references a client the store does not hold fails
/// with the missing reference, and no case row appears.
pub proof fn lemma_create_case_missing_client(m: DbModel, p: CasePayloadModel)
    requires
        parse_date_spec(p.data_abertura) is Some,
        !m.has_client(p.id_cliente),
    ensures
        create_case_spec(m, p).0 == m,
        create_case_spec(m, p).1 == Err::<i32, GatewayError>(
            GatewayError::ReferencedEntityMissing(Field::IdCliente),
        ),
{
}

/// A well-formed case update whose id matches zero rows is `NotFound`,
/// never a silent success, and changes nothing.
pub proof fn lemma_update_case_zero_rows(m: DbModel, p: CaseUpdateModel)
    requires
        parse_date_spec(p.data_abertura) is Some,
        m.has_client(p.id_cliente),
        m.has_lawyer(p.id_advogado),
        m.has_status(p.id_status),
        (p.id_vara_judicial matches Some(v) ==> m.has_court(v)),
        (p.id_categoria_caso matches Some(v) ==> m.has_category(v)),
        !m.has_case(p.id_caso),
    ensures
        update_case_spec(m, p).0 == m,
        update_case_spec(m, p).1 == Err::<(), GatewayError>(GatewayError::NotFound),
{
}

/// Declaring a switch from physical to legal without supplying the
/// registration number rolls the whole update back: the client's fields are
/// untouched and neither subtype gains a row.
pub proof fn lemma_update_client_switch_requires_cnpj(
    m: DbModel,
    p: Map<Seq<char>, Seq<char>>,
    id: i32,
)
    requires
        p.contains_key("id"@),
        crate::text::parse_i32_spec(p["id"@]) == Some(id),
        p.contains_key("nome"@),
        p.contains_key("email"@),
        p.contains_key("tipoCliente"@),
        p["tipoCliente"@] == "juridica"@,
        crate::clients::orig_tipo(p) == "fisica"@,
        !p.contains_key("cnpj"@),
        m.has_client(id),
    ensures
        update_client_spec(m, p).0 == m,
        update_client_spec(m, p).1 == Err::<(), GatewayError>(
            GatewayError::Validation(Field::Cnpj),
        ),
{
}

/// The round trip: creating a document with decodable base64 content and
/// then downloading it by the returned id yields exactly the decoded bytes
/// under the stored file name.
pub proof fn lemma_document_round_trip(m: DbModel, p: DocumentPayloadModel)
    requires
        m.wf(),
        m.next_document_id < i32::MAX,
        b64_decoded(p.arquivo_base64) is Some,
        parse_date_spec(p.data_envio) is Some,
        m.has_case(p.id_caso),
    ensures
        create_document_spec(m, p).1 == Ok::<i32, GatewayError>(m.next_document_id),
        (download_spec(create_document_spec(m, p).0, m.next_document_id) matches Ok(nb) && nb.0
            == p.nome_arquivo && Some(nb.1) == b64_decoded(p.arquivo_base64)),
{
    let m1 = create_document_spec(m, p).0;
    let id = m.next_document_id;
    let n = m.documents.len() as int;
    assert(m1.documents[n].id == id);
    assert(m1.has_document(id));
    let w = m1.document_idx(id);
    assert(0 <= w < m1.documents.len() && m1.documents[w].id == id);
    if w != n {
        assert(m1.documents[w] == m.documents[w]);
        assert(m.documents[w].id < m.next_document_id);
        assert(false);
    }
}

} // verus!
