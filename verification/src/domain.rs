//! The records of the practice — clients with their physical/legal subtype,
//! lawyers, cases, documents and the lookup tables — together with the spec
//! models the contracts speak of, the write payloads, and the error taxonomy
//! of the gateways.

use vstd::prelude::*;
use crate::dates::Date;

verus! {

pub open spec fn opt_view(o: Option<String>) -> Option<Seq<char>> {
    match o {
        Some(s) => Some(s@),
        None => None,
    }
}

pub open spec fn opt_bytes_view(o: Option<Vec<u8>>) -> Option<Seq<u8>> {
    match o {
        Some(b) => Some(b@),
        None => None,
    }
}

/// Clone an optional borrowed string by value.
pub fn clone_opt_string_ref(o: Option<&String>) -> (r: Option<String>)
    ensures
        (r matches Some(s) ==> o matches Some(t) && s == *t),
        (r is None ==> o is None),
{
    match o {
        Some(s) => Some(s.clone()),
        None => None,
    }
}

/// Clone an optional string by value.
pub fn clone_opt_string(o: &Option<String>) -> (r: Option<String>)
    ensures
        r == *o,
{
    match o {
        Some(s) => Some(s.clone()),
        None => None,
    }
}

/// The discriminated subtype of a client: a physical person with a national
/// id, or a legal entity with a registration number.
#[derive(Debug)]
pub enum ClientKind {
    Fisica(String),
    Juridica(String),
}

/// Clone an optional subtype by value.
pub fn clone_kind(o: &Option<ClientKind>) -> (r: Option<ClientKind>)
    ensures
        opt_kind_view(&r) == opt_kind_view(o),
{
    match o {
        Some(ClientKind::Fisica(c)) => Some(ClientKind::Fisica(c.clone())),
        Some(ClientKind::Juridica(c)) => Some(ClientKind::Juridica(c.clone())),
        None => None,
    }
}

pub open spec fn opt_kind_view(o: &Option<ClientKind>) -> Option<ClientKindModel> {
    match o {
        Some(ClientKind::Fisica(s)) => Some(ClientKindModel::Fisica(s@)),
        Some(ClientKind::Juridica(s)) => Some(ClientKindModel::Juridica(s@)),
        None => None,
    }
}

#[verifier::ext_equal]
pub enum ClientKindModel {
    Fisica(Seq<char>),
    Juridica(Seq<char>),
}

impl View for ClientKind {
    type V = ClientKindModel;

    open spec fn view(&self) -> ClientKindModel {
        match self {
            ClientKind::Fisica(s) => ClientKindModel::Fisica(s@),
            ClientKind::Juridica(s) => ClientKindModel::Juridica(s@),
        }
    }
}

#[derive(Debug)]
pub struct Client {
    pub id: i32,
    pub nome: String,
    pub email: Option<String>,
    pub telefone: Option<String>,
    pub endereco: Option<String>,
    pub data_cadastro: Option<Date>,
    pub kind: Option<ClientKind>,
}

#[verifier::ext_equal]
pub struct ClientModel {
    pub id: i32,
    pub nome: Seq<char>,
    pub email: Option<Seq<char>>,
    pub telefone: Option<Seq<char>>,
    pub endereco: Option<Seq<char>>,
    pub data_cadastro: Option<Date>,
    pub kind: Option<ClientKindModel>,
}

impl View for Client {
    type V = ClientModel;

    open spec fn view(&self) -> ClientModel {
        ClientModel {
            id: self.id,
            nome: self.nome@,
            email: opt_view(self.email),
            telefone: opt_view(self.telefone),
            endereco: opt_view(self.endereco),
            data_cadastro: self.data_cadastro,
            kind: opt_kind_view(&self.kind),
        }
    }
}

#[derive(Debug)]
pub struct Lawyer {
    pub id: i32,
    pub nome: String,
    pub oab: String,
    pub telefone: Option<String>,
    pub email: Option<String>,
    pub especialidade: Option<String>,
}

#[verifier::ext_equal]
pub struct LawyerModel {
    pub id: i32,
    pub nome: Seq<char>,
    pub oab: Seq<char>,
    pub telefone: Option<Seq<char>>,
    pub email: Option<Seq<char>>,
    pub especialidade: Option<Seq<char>>,
}

impl View for Lawyer {
    type V = LawyerModel;

    open spec fn view(&self) -> LawyerModel {
        LawyerModel {
            id: self.id,
            nome: self.nome@,
            oab: self.oab@,
            telefone: opt_view(self.telefone),
            email: opt_view(self.email),
            especialidade: opt_view(self.especialidade),
        }
    }
}

#[derive(Debug)]
pub struct StatusRow {
    pub id: i32,
    pub descricao: String,
}

#[verifier::ext_equal]
pub struct StatusModel {
    pub id: i32,
    pub descricao: Seq<char>,
}

impl View for StatusRow {
    type V = StatusModel;

    open spec fn view(&self) -> StatusModel {
        StatusModel { id: self.id, descricao: self.descricao@ }
    }
}

#[derive(Debug)]
pub struct Court {
    pub id: i32,
    pub nome_vara: String,
}

#[verifier::ext_equal]
pub struct CourtModel {
    pub id: i32,
    pub nome_vara: Seq<char>,
}

impl View for Court {
    type V = CourtModel;

    open spec fn view(&self) -> CourtModel {
        CourtModel { id: self.id, nome_vara: self.nome_vara@ }
    }
}

#[derive(Debug)]
pub struct Category {
    pub id: i32,
    pub descricao: String,
}

#[verifier::ext_equal]
pub struct CategoryModel {
    pub id: i32,
    pub descricao: Seq<char>,
}

impl View for Category {
    type V = CategoryModel;

    open spec fn view(&self) -> CategoryModel {
        CategoryModel { id: self.id, descricao: self.descricao@ }
    }
}

#[derive(Debug)]
pub struct CaseRec {
    pub id: i32,
    pub id_cliente: i32,
    pub id_advogado: i32,
    pub id_status: i32,
    pub id_vara_judicial: Option<i32>,
    pub id_categoria_caso: Option<i32>,
    pub descricao: Option<String>,
    pub numero_processo: Option<String>,
    pub data_abertura: Date,
    pub data_fechamento: Option<Date>,
}

#[verifier::ext_equal]
pub struct CaseModel {
    pub id: i32,
    pub id_cliente: i32,
    pub id_advogado: i32,
    pub id_status: i32,
    pub id_vara_judicial: Option<i32>,
    pub id_categoria_caso: Option<i32>,
    pub descricao: Option<Seq<char>>,
    pub numero_processo: Option<Seq<char>>,
    pub data_abertura: Date,
    pub data_fechamento: Option<Date>,
}

impl View for CaseRec {
    type V = CaseModel;

    open spec fn view(&self) -> CaseModel {
        CaseModel {
            id: self.id,
            id_cliente: self.id_cliente,
            id_advogado: self.id_advogado,
            id_status: self.id_status,
            id_vara_judicial: self.id_vara_judicial,
            id_categoria_caso: self.id_categoria_caso,
            descricao: opt_view(self.descricao),
            numero_processo: opt_view(self.numero_processo),
            data_abertura: self.data_abertura,
            data_fechamento: self.data_fechamento,
        }
    }
}

#[derive(Debug)]
pub struct DocumentRec {
    pub id: i32,
    pub id_caso: i32,
    pub descricao: String,
    pub data_envio: Option<Date>,
    pub nome_arquivo: String,
    pub arquivo: Option<Vec<u8>>,
}

#[verifier::ext_equal]
pub struct DocumentModel {
    pub id: i32,
    pub id_caso: i32,
    pub descricao: Seq<char>,
    pub data_envio: Option<Date>,
    pub nome_arquivo: Seq<char>,
    pub arquivo: Option<Seq<u8>>,
}

impl View for DocumentRec {
    type V = DocumentModel;

    open spec fn view(&self) -> DocumentModel {
        DocumentModel {
            id: self.id,
            id_caso: self.id_caso,
            descricao: self.descricao@,
            data_envio: self.data_envio,
            nome_arquivo: self.nome_arquivo@,
            arquivo: opt_bytes_view(self.arquivo),
        }
    }
}

/// The request field that an error points at.
#[derive(Debug, Clone, Copy, PartialEq, Eq, Structural)]
pub enum Field {
    Nome,
    Email,
    TipoCliente,
    OriginalTipoCliente,
    Cpf,
    Cnpj,
    IdCliente,
    IdAdvogado,
    IdStatus,
    IdVaraJudicial,
    IdCategoriaCaso,
    IdCaso,
    DataAbertura,
    DataEnvio,
    ArquivoBase64,
    Id,
}

/// Why a gateway operation was rejected. Every rejection leaves the store
/// exactly as it was.
#[derive(Debug, Clone, Copy, PartialEq, Eq, Structural)]
pub enum GatewayError {
    /// A required field is missing or its value is not admissible.
    Validation(Field),
    /// An `id` parameter is present but is not an integer.
    InvalidId,
    /// A required date field is not a strict `YYYY-MM-DD` calendar day.
    InvalidDate(Field),
    /// A referenced row does not exist; the payload names the foreign key.
    ReferencedEntityMissing(Field),
    /// No row matches the id: a lookup found nothing, or a mutation touched
    /// zero rows.
    NotFound,
    /// The write would break a uniqueness rule of the store.
    ConstraintViolation,
}

/// The JSON body of a case create.
#[derive(Debug)]
pub struct CasePayload {
    pub id_cliente: i32,
    pub id_advogado: i32,
    pub id_status: i32,
    pub id_vara_judicial: Option<i32>,
    pub id_categoria_caso: Option<i32>,
    pub descricao: Option<String>,
    pub numero_processo: Option<String>,
    pub data_abertura: String,
    pub data_fechamento: Option<String>,
}

#[verifier::ext_equal]
pub struct CasePayloadModel {
    pub id_cliente: i32,
    pub id_advogado: i32,
    pub id_status: i32,
    pub id_vara_judicial: Option<i32>,
    pub id_categoria_caso: Option<i32>,
    pub descricao: Option<Seq<char>>,
    pub numero_processo: Option<Seq<char>>,
    pub data_abertura: Seq<char>,
    pub data_fechamento: Option<Seq<char>>,
}

impl View for CasePayload {
    type V = CasePayloadModel;

    open spec fn view(&self) -> CasePayloadModel {
        CasePayloadModel {
            id_cliente: self.id_cliente,
            id_advogado: self.id_advogado,
            id_status: self.id_status,
            id_vara_judicial: self.id_vara_judicial,
            id_categoria_caso: self.id_categoria_caso,
            descricao: opt_view(self.descricao),
            numero_processo: opt_view(self.numero_processo),
            data_abertura: self.data_abertura@,
            data_fechamento: opt_view(self.data_fechamento),
        }
    }
}

/// The JSON body of a case update: the same record with the id of the row
/// it replaces.
#[derive(Debug)]
pub struct CaseUpdatePayload {
    pub id_caso: i32,
    pub id_cliente: i32,
    pub id_advogado: i32,
    pub id_status: i32,
    pub id_vara_judicial: Option<i32>,
    pub id_categoria_caso: Option<i32>,
    pub descricao: Option<String>,
    pub numero_processo: Option<String>,
    pub data_abertura: String,
    pub data_fechamento: Option<String>,
}

#[verifier::ext_equal]
pub struct CaseUpdateModel {
    pub id_caso: i32,
    pub id_cliente: i32,
    pub id_advogado: i32,
    pub id_status: i32,
    pub id_vara_judicial: Option<i32>,
    pub id_categoria_caso: Option<i32>,
    pub descricao: Option<Seq<char>>,
    pub numero_processo: Option<Seq<char>>,
    pub data_abertura: Seq<char>,
    pub data_fechamento: Option<Seq<char>>,
}

impl View for CaseUpdatePayload {
    type V = CaseUpdateModel;

    open spec fn view(&self) -> CaseUpdateModel {
        CaseUpdateModel {
            id_caso: self.id_caso,
            id_cliente: self.id_cliente,
            id_advogado: self.id_advogado,
            id_status: self.id_status,
            id_vara_judicial: self.id_vara_judicial,
            id_categoria_caso: self.id_categoria_caso,
            descricao: opt_view(self.descricao),
            numero_processo: opt_view(self.numero_processo),
            data_abertura: self.data_abertura@,
            data_fechamento: opt_view(self.data_fechamento),
        }
    }
}

/// The JSON body of a document create.
#[derive(Debug)]
pub struct DocumentPayload {
    pub id_caso: i32,
    pub descricao: String,
    pub data_envio: String,
    pub nome_arquivo: String,
    pub arquivo_base64: String,
}

#[verifier::ext_equal]
pub struct DocumentPayloadModel {
    pub id_caso: i32,
    pub descricao: Seq<char>,
    pub data_envio: Seq<char>,
    pub nome_arquivo: Seq<char>,
    pub arquivo_base64: Seq<char>,
}

impl View for DocumentPayload {
    type V = DocumentPayloadModel;

    open spec fn view(&self) -> DocumentPayloadModel {
        DocumentPayloadModel {
            id_caso: self.id_caso,
            descricao: self.descricao@,
            data_envio: self.data_envio@,
            nome_arquivo: self.nome_arquivo@,
            arquivo_base64: self.arquivo_base64@,
        }
    }
}

/// The JSON body of a document update; an omitted file keeps the stored
/// content.
#[derive(Debug)]
pub struct DocumentUpdatePayload {
    pub id: i32,
    pub id_caso: i32,
    pub descricao: String,
    pub data_envio: String,
    pub nome_arquivo: String,
    pub arquivo_base64: Option<String>,
}

#[verifier::ext_equal]
pub struct DocumentUpdateModel {
    pub id: i32,
    pub id_caso: i32,
    pub descricao: Seq<char>,
    pub data_envio: Seq<char>,
    pub nome_arquivo: Seq<char>,
    pub arquivo_base64: Option<Seq<char>>,
}

impl View for DocumentUpdatePayload {
    type V = DocumentUpdateModel;

    open spec fn view(&self) -> DocumentUpdateModel {
        DocumentUpdateModel {
            id: self.id,
            id_caso: self.id_caso,
            descricao: self.descricao@,
            data_envio: self.data_envio@,
            nome_arquivo: self.nome_arquivo@,
            arquivo_base64: opt_view(self.arquivo_base64),
        }
    }
}

} // verus!
