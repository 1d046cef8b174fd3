//! The response shapes of the read paths, and the display order of each
//! listing. Nulls pass through unchanged on list paths; the single-client
//! read coalesces them to a sentinel; dates render as `YYYY-MM-DD` strings.
//! No listing row has a field for the raw binary content.

use vstd::prelude::*;
use crate::clients::sentinel_text;
use crate::dates::{Date, date_chars};
use crate::order::ListOrder;
use crate::text::{chars_le, lemma_chars_le_total, str_eq, str_le};

verus! {

pub open spec fn or_sentinel(o: Option<Seq<char>>) -> Seq<char> {
    match o {
        Some(s) => s,
        None => sentinel_text(),
    }
}

pub open spec fn opt_date_chars(o: Option<Date>) -> Option<Seq<char>> {
    match o {
        Some(d) => Some(date_chars(d)),
        None => None,
    }
}

/// One row of the client lookup list.
#[derive(Debug)]
pub struct ClientSummary {
    pub id_cliente: i32,
    pub nome: String,
}

#[verifier::ext_equal]
pub struct ClientSummaryModel {
    pub id_cliente: i32,
    pub nome: Seq<char>,
}

impl View for ClientSummary {
    type V = ClientSummaryModel;

    open spec fn view(&self) -> ClientSummaryModel {
        ClientSummaryModel { id_cliente: self.id_cliente, nome: self.nome@ }
    }
}

impl ListOrder for ClientSummary {
    open spec fn precedes(a: Self, b: Self) -> bool {
        chars_le(a.nome@, b.nome@)
    }

    proof fn lemma_total(a: Self, b: Self) {
        lemma_chars_le_total(a.nome@, b.nome@);
    }

    fn leq(&self, other: &Self) -> (r: bool) {
        str_le(self.nome.as_str(), other.nome.as_str())
    }
}

/// The single-client response: absent text fields read as the sentinel.
#[derive(Debug)]
pub struct ClientDetail {
    pub id_cliente: i32,
    pub nome: String,
    pub email: String,
    pub telefone: String,
    pub endereco: String,
    pub data_cadastro: String,
    pub cpf: Option<String>,
    pub cnpj: Option<String>,
}

#[verifier::ext_equal]
pub struct ClientDetailModel {
    pub id_cliente: i32,
    pub nome: Seq<char>,
    pub email: Seq<char>,
    pub telefone: Seq<char>,
    pub endereco: Seq<char>,
    pub data_cadastro: Seq<char>,
    pub cpf: Option<Seq<char>>,
    pub cnpj: Option<Seq<char>>,
}

impl View for ClientDetail {
    type V = ClientDetailModel;

    open spec fn view(&self) -> ClientDetailModel {
        ClientDetailModel {
            id_cliente: self.id_cliente,
            nome: self.nome@,
            email: self.email@,
            telefone: self.telefone@,
            endereco: self.endereco@,
            data_cadastro: self.data_cadastro@,
            cpf: crate::domain::opt_view(self.cpf),
            cnpj: crate::domain::opt_view(self.cnpj),
        }
    }
}

/// One row of the full client page list: nulls pass through unchanged.
#[derive(Debug)]
pub struct ClientRecord {
    pub id_cliente: i32,
    pub nome: String,
    pub email: Option<String>,
    pub telefone: Option<String>,
    pub endereco: Option<String>,
    pub data_cadastro: Option<String>,
    pub cpf: Option<String>,
    pub cnpj: Option<String>,
}

#[verifier::ext_equal]
pub struct ClientRecordModel {
    pub id_cliente: i32,
    pub nome: Seq<char>,
    pub email: Option<Seq<char>>,
    pub telefone: Option<Seq<char>>,
    pub endereco: Option<Seq<char>>,
    pub data_cadastro: Option<Seq<char>>,
    pub cpf: Option<Seq<char>>,
    pub cnpj: Option<Seq<char>>,
}

impl View for ClientRecord {
    type V = ClientRecordModel;

    open spec fn view(&self) -> ClientRecordModel {
        ClientRecordModel {
            id_cliente: self.id_cliente,
            nome: self.nome@,
            email: crate::domain::opt_view(self.email),
            telefone: crate::domain::opt_view(self.telefone),
            endereco: crate::domain::opt_view(self.endereco),
            data_cadastro: crate::domain::opt_view(self.data_cadastro),
            cpf: crate::domain::opt_view(self.cpf),
            cnpj: crate::domain::opt_view(self.cnpj),
        }
    }
}

impl ListOrder for ClientRecord {
    open spec fn precedes(a: Self, b: Self) -> bool {
        chars_le(a.nome@, b.nome@)
    }

    proof fn lemma_total(a: Self, b: Self) {
        lemma_chars_le_total(a.nome@, b.nome@);
    }

    fn leq(&self, other: &Self) -> (r: bool) {
        str_le(self.nome.as_str(), other.nome.as_str())
    }
}

/// One row of the lawyer list.
#[derive(Debug)]
pub struct LawyerRow {
    pub id: i32,
    pub nome: String,
    pub oab: String,
}

#[verifier::ext_equal]
pub struct LawyerRowModel {
    pub id: i32,
    pub nome: Seq<char>,
    pub oab: Seq<char>,
}

impl View for LawyerRow {
    type V = LawyerRowModel;

    open spec fn view(&self) -> LawyerRowModel {
        LawyerRowModel { id: self.id, nome: self.nome@, oab: self.oab@ }
    }
}

impl ListOrder for LawyerRow {
    open spec fn precedes(a: Self, b: Self) -> bool {
        chars_le(a.nome@, b.nome@)
    }

    proof fn lemma_total(a: Self, b: Self) {
        lemma_chars_le_total(a.nome@, b.nome@);
    }

    fn leq(&self, other: &Self) -> (r: bool) {
        str_le(self.nome.as_str(), other.nome.as_str())
    }
}

/// One row of the status lookup list; the description is served under the
/// key `nome`.
#[derive(Debug)]
pub struct StatusSummary {
    pub id: i32,
    pub nome: String,
}

#[verifier::ext_equal]
pub struct StatusSummaryModel {
    pub id: i32,
    pub nome: Seq<char>,
}

impl View for StatusSummary {
    type V = StatusSummaryModel;

    open spec fn view(&self) -> StatusSummaryModel {
        StatusSummaryModel { id: self.id, nome: self.nome@ }
    }
}

impl ListOrder for StatusSummary {
    open spec fn precedes(a: Self, b: Self) -> bool {
        chars_le(a.nome@, b.nome@)
    }

    proof fn lemma_total(a: Self, b: Self) {
        lemma_chars_le_total(a.nome@, b.nome@);
    }

    fn leq(&self, other: &Self) -> (r: bool) {
        str_le(self.nome.as_str(), other.nome.as_str())
    }
}

/// One row of the judicial court lookup list.
#[derive(Debug)]
pub struct CourtSummary {
    pub id: i32,
    pub nome: String,
}

#[verifier::ext_equal]
pub struct CourtSummaryModel {
    pub id: i32,
    pub nome: Seq<char>,
}

impl View for CourtSummary {
    type V = CourtSummaryModel;

    open spec fn view(&self) -> CourtSummaryModel {
        CourtSummaryModel { id: self.id, nome: self.nome@ }
    }
}

impl ListOrder for CourtSummary {
    open spec fn precedes(a: Self, b: Self) -> bool {
        chars_le(a.nome@, b.nome@)
    }

    proof fn lemma_total(a: Self, b: Self) {
        lemma_chars_le_total(a.nome@, b.nome@);
    }

    fn leq(&self, other: &Self) -> (r: bool) {
        str_le(self.nome.as_str(), other.nome.as_str())
    }
}

/// One joined case row, as every case read serves it.
#[derive(Debug)]
pub struct CaseView {
    pub id_caso: i32,
    pub descricao: Option<String>,
    pub numero_processo: Option<String>,
    pub data_abertura: String,
    pub data_fechamento: Option<String>,
    pub id_cliente: i32,
    pub cliente_nome: String,
    pub cliente_email: Option<String>,
    pub id_advogado: i32,
    pub advogado_nome: String,
    pub advogado_oab: String,
    pub id_status: i32,
    pub status_descricao: String,
    pub id_vara_judicial: Option<i32>,
    pub nome_vara: Option<String>,
    pub id_categoria_caso: Option<i32>,
    pub categoria_descricao: Option<String>,
}

#[verifier::ext_equal]
pub struct CaseViewModel {
    pub id_caso: i32,
    pub descricao: Option<Seq<char>>,
    pub numero_processo: Option<Seq<char>>,
    pub data_abertura: Seq<char>,
    pub data_fechamento: Option<Seq<char>>,
    pub id_cliente: i32,
    pub cliente_nome: Seq<char>,
    pub cliente_email: Option<Seq<char>>,
    pub id_advogado: i32,
    pub advogado_nome: Seq<char>,
    pub advogado_oab: Seq<char>,
    pub id_status: i32,
    pub status_descricao: Seq<char>,
    pub id_vara_judicial: Option<i32>,
    pub nome_vara: Option<Seq<char>>,
    pub id_categoria_caso: Option<i32>,
    pub categoria_descricao: Option<Seq<char>>,
}

impl View for CaseView {
    type V = CaseViewModel;

    open spec fn view(&self) -> CaseViewModel {
        CaseViewModel {
            id_caso: self.id_caso,
            descricao: crate::domain::opt_view(self.descricao),
            numero_processo: crate::domain::opt_view(self.numero_processo),
            data_abertura: self.data_abertura@,
            data_fechamento: crate::domain::opt_view(self.data_fechamento),
            id_cliente: self.id_cliente,
            cliente_nome: self.cliente_nome@,
            cliente_email: crate::domain::opt_view(self.cliente_email),
            id_advogado: self.id_advogado,
            advogado_nome: self.advogado_nome@,
            advogado_oab: self.advogado_oab@,
            id_status: self.id_status,
            status_descricao: self.status_descricao@,
            id_vara_judicial: self.id_vara_judicial,
            nome_vara: crate::domain::opt_view(self.nome_vara),
            id_categoria_caso: self.id_categoria_caso,
            categoria_descricao: crate::domain::opt_view(self.categoria_descricao),
        }
    }
}

impl ListOrder for CaseView {
    /// Newest open date first; the rendered date orders as the calendar
    /// does.
    open spec fn precedes(a: Self, b: Self) -> bool {
        chars_le(b.data_abertura@, a.data_abertura@)
    }

    proof fn lemma_total(a: Self, b: Self) {
        lemma_chars_le_total(b.data_abertura@, a.data_abertura@);
    }

    fn leq(&self, other: &Self) -> (r: bool) {
        str_le(other.data_abertura.as_str(), self.data_abertura.as_str())
    }
}

/// One row of the document listing: metadata only, never the stored bytes.
#[derive(Debug)]
pub struct DocumentMeta {
    pub id_documento: i32,
    pub id_caso: i32,
    pub descricao: String,
    pub data_envio: Option<String>,
    pub nome_arquivo: String,
}

#[verifier::ext_equal]
pub struct DocumentMetaModel {
    pub id_documento: i32,
    pub id_caso: i32,
    pub descricao: Seq<char>,
    pub data_envio: Option<Seq<char>>,
    pub nome_arquivo: Seq<char>,
}

impl View for DocumentMeta {
    type V = DocumentMetaModel;

    open spec fn view(&self) -> DocumentMetaModel {
        DocumentMetaModel {
            id_documento: self.id_documento,
            id_caso: self.id_caso,
            descricao: self.descricao@,
            data_envio: crate::domain::opt_view(self.data_envio),
            nome_arquivo: self.nome_arquivo@,
        }
    }
}

impl ListOrder for DocumentMeta {
    /// Newest send date first; a row without one comes first, as a
    /// descending scan over nulls does.
    open spec fn precedes(a: Self, b: Self) -> bool {
        match (a.data_envio, b.data_envio) {
            (None, _) => true,
            (Some(_), None) => false,
            (Some(x), Some(y)) => chars_le(y@, x@),
        }
    }

    proof fn lemma_total(a: Self, b: Self) {
        match (a.data_envio, b.data_envio) {
            (Some(x), Some(y)) => {
                lemma_chars_le_total(y@, x@);
            },
            _ => {},
        }
    }

    fn leq(&self, other: &Self) -> (r: bool) {
        match (&self.data_envio, &other.data_envio) {
            (None, _) => true,
            (Some(_), None) => false,
            (Some(x), Some(y)) => str_le(y.as_str(), x.as_str()),
        }
    }
}

/// One row of the document picker: id and file name, by file name.
#[derive(Debug)]
pub struct DocumentChoice {
    pub id_documento: i32,
    pub nome_arquivo: String,
}

#[verifier::ext_equal]
pub struct DocumentChoiceModel {
    pub id_documento: i32,
    pub nome_arquivo: Seq<char>,
}

impl View for DocumentChoice {
    type V = DocumentChoiceModel;

    open spec fn view(&self) -> DocumentChoiceModel {
        DocumentChoiceModel { id_documento: self.id_documento, nome_arquivo: self.nome_arquivo@ }
    }
}

impl ListOrder for DocumentChoice {
    open spec fn precedes(a: Self, b: Self) -> bool {
        chars_le(a.nome_arquivo@, b.nome_arquivo@)
    }

    proof fn lemma_total(a: Self, b: Self) {
        lemma_chars_le_total(a.nome_arquivo@, b.nome_arquivo@);
    }

    fn leq(&self, other: &Self) -> (r: bool) {
        str_le(self.nome_arquivo.as_str(), other.nome_arquivo.as_str())
    }
}

/// One row of the documents-per-client-and-case report.
#[derive(Debug)]
pub struct ReportDocRow {
    pub cliente_nome: String,
    pub numero_processo: Option<String>,
    pub total_documentos: u64,
}

#[verifier::ext_equal]
pub struct ReportDocRowModel {
    pub cliente_nome: Seq<char>,
    pub numero_processo: Option<Seq<char>>,
    pub total_documentos: u64,
}

impl View for ReportDocRow {
    type V = ReportDocRowModel;

    open spec fn view(&self) -> ReportDocRowModel {
        ReportDocRowModel {
            cliente_nome: self.cliente_nome@,
            numero_processo: crate::domain::opt_view(self.numero_processo),
            total_documentos: self.total_documentos,
        }
    }
}

impl ListOrder for ReportDocRow {
    /// By client name, then by process number with absent ones last.
    open spec fn precedes(a: Self, b: Self) -> bool {
        if a.cliente_nome@ != b.cliente_nome@ {
            chars_le(a.cliente_nome@, b.cliente_nome@)
        } else {
            match (a.numero_processo, b.numero_processo) {
                (None, None) => true,
                (None, Some(_)) => false,
                (Some(_), None) => true,
                (Some(x), Some(y)) => chars_le(x@, y@),
            }
        }
    }

    proof fn lemma_total(a: Self, b: Self) {
        lemma_chars_le_total(a.cliente_nome@, b.cliente_nome@);
        match (a.numero_processo, b.numero_processo) {
            (Some(x), Some(y)) => {
                lemma_chars_le_total(x@, y@);
            },
            _ => {},
        }
    }

    fn leq(&self, other: &Self) -> (r: bool) {
        if !str_eq(self.cliente_nome.as_str(), other.cliente_nome.as_str()) {
            str_le(self.cliente_nome.as_str(), other.cliente_nome.as_str())
        } else {
            match (&self.numero_processo, &other.numero_processo) {
                (None, None) => true,
                (None, Some(_)) => false,
                (Some(_), None) => true,
                (Some(x), Some(y)) => str_le(x.as_str(), y.as_str()),
            }
        }
    }
}

/// One row of the cases-per-lawyer-and-status report.
#[derive(Debug)]
pub struct ReportCaseRow {
    pub advogado_nome: String,
    pub status_descricao: String,
    pub total_casos: u64,
}

#[verifier::ext_equal]
pub struct ReportCaseRowModel {
    pub advogado_nome: Seq<char>,
    pub status_descricao: Seq<char>,
    pub total_casos: u64,
}

impl View for ReportCaseRow {
    type V = ReportCaseRowModel;

    open spec fn view(&self) -> ReportCaseRowModel {
        ReportCaseRowModel {
            advogado_nome: self.advogado_nome@,
            status_descricao: self.status_descricao@,
            total_casos: self.total_casos,
        }
    }
}

impl ListOrder for ReportCaseRow {
    /// By lawyer name, then by status description.
    open spec fn precedes(a: Self, b: Self) -> bool {
        if a.advogado_nome@ != b.advogado_nome@ {
            chars_le(a.advogado_nome@, b.advogado_nome@)
        } else {
            chars_le(a.status_descricao@, b.status_descricao@)
        }
    }

    proof fn lemma_total(a: Self, b: Self) {
        lemma_chars_le_total(a.advogado_nome@, b.advogado_nome@);
        lemma_chars_le_total(a.status_descricao@, b.status_descricao@);
    }

    fn leq(&self, other: &Self) -> (r: bool) {
        if !str_eq(self.advogado_nome.as_str(), other.advogado_nome.as_str()) {
            str_le(self.advogado_nome.as_str(), other.advogado_nome.as_str())
        } else {
            str_le(self.status_descricao.as_str(), other.status_descricao.as_str())
        }
    }
}

} // verus!
