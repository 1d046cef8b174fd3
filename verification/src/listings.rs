//! The read paths: list-or-get for every entity, shaped as the response
//! rows and sorted by the natural display key. The list path for clients
//! passes nulls through; the single-client path coalesces them to the
//! sentinel — an asymmetry the routes rely on.

use vstd::prelude::*;
use crate::clients::sentinel_string;
use crate::dates::{date_chars, format_date};
use crate::domain::{clone_opt_string, ClientKind, ClientModel, GatewayError};
use crate::domain::{CaseModel, CourtModel, DocumentModel, LawyerModel, StatusModel};
use crate::order::{lemma_seq_view_multiset, ordered, seq_view, sort_rows};
use crate::rows::{
    CaseView, CaseViewModel, ClientDetail, ClientDetailModel, ClientRecord, ClientRecordModel,
    ClientSummary, ClientSummaryModel, CourtSummary, CourtSummaryModel, DocumentChoice,
    DocumentChoiceModel, DocumentMeta, DocumentMetaModel, LawyerRow, LawyerRowModel, opt_date_chars,
    or_sentinel, StatusSummary, StatusSummaryModel,
};
use crate::store::{cnpj_of, cpf_of, Database, DbModel};

verus! {

pub open spec fn client_summary_of(c: ClientModel) -> ClientSummaryModel {
    ClientSummaryModel { id_cliente: c.id, nome: c.nome }
}

pub open spec fn client_record_of(c: ClientModel) -> ClientRecordModel {
    ClientRecordModel {
        id_cliente: c.id,
        nome: c.nome,
        email: c.email,
        telefone: c.telefone,
        endereco: c.endereco,
        data_cadastro: opt_date_chars(c.data_cadastro),
        cpf: cpf_of(c.kind),
        cnpj: cnpj_of(c.kind),
    }
}

pub open spec fn client_detail_of(c: ClientModel) -> ClientDetailModel {
    ClientDetailModel {
        id_cliente: c.id,
        nome: c.nome,
        email: or_sentinel(c.email),
        telefone: or_sentinel(c.telefone),
        endereco: or_sentinel(c.endereco),
        data_cadastro: or_sentinel(opt_date_chars(c.data_cadastro)),
        cpf: cpf_of(c.kind),
        cnpj: cnpj_of(c.kind),
    }
}

pub open spec fn lawyer_row_of(l: LawyerModel) -> LawyerRowModel {
    LawyerRowModel { id: l.id, nome: l.nome, oab: l.oab }
}

pub open spec fn status_row_of(s: StatusModel) -> StatusSummaryModel {
    StatusSummaryModel { id: s.id, nome: s.descricao }
}

pub open spec fn court_row_of(c: CourtModel) -> CourtSummaryModel {
    CourtSummaryModel { id: c.id, nome: c.nome_vara }
}

/// The joined case row: the case's own columns with the display columns of
/// every row it references.
pub open spec fn case_view_of(m: DbModel, c: CaseModel) -> CaseViewModel {
    CaseViewModel {
        id_caso: c.id,
        descricao: c.descricao,
        numero_processo: c.numero_processo,
        data_abertura: date_chars(c.data_abertura),
        data_fechamento: opt_date_chars(c.data_fechamento),
        id_cliente: c.id_cliente,
        cliente_nome: m.clients[m.client_idx(c.id_cliente)].nome,
        cliente_email: m.clients[m.client_idx(c.id_cliente)].email,
        id_advogado: c.id_advogado,
        advogado_nome: m.lawyers[m.lawyer_idx(c.id_advogado)].nome,
        advogado_oab: m.lawyers[m.lawyer_idx(c.id_advogado)].oab,
        id_status: c.id_status,
        status_descricao: m.statuses[m.status_idx(c.id_status)].descricao,
        id_vara_judicial: c.id_vara_judicial,
        nome_vara: match c.id_vara_judicial {
            Some(v) => Some(m.courts[m.court_idx(v)].nome_vara),
            None => None,
        },
        id_categoria_caso: c.id_categoria_caso,
        categoria_descricao: match c.id_categoria_caso {
            Some(v) => Some(m.categories[m.category_idx(v)].descricao),
            None => None,
        },
    }
}

pub open spec fn document_meta_of(d: DocumentModel) -> DocumentMetaModel {
    DocumentMetaModel {
        id_documento: d.id,
        id_caso: d.id_caso,
        descricao: d.descricao,
        data_envio: opt_date_chars(d.data_envio),
        nome_arquivo: d.nome_arquivo,
    }
}

pub open spec fn document_choice_of(d: DocumentModel) -> DocumentChoiceModel {
    DocumentChoiceModel { id_documento: d.id, nome_arquivo: d.nome_arquivo }
}

pub open spec fn client_summaries_of(m: DbModel) -> Seq<ClientSummaryModel> {
    m.clients.map_values(|c: ClientModel| client_summary_of(c))
}

pub open spec fn client_records_of(m: DbModel) -> Seq<ClientRecordModel> {
    m.clients.map_values(|c: ClientModel| client_record_of(c))
}

pub open spec fn lawyer_rows_of(m: DbModel) -> Seq<LawyerRowModel> {
    m.lawyers.map_values(|l: LawyerModel| lawyer_row_of(l))
}

pub open spec fn status_rows_of(m: DbModel) -> Seq<StatusSummaryModel> {
    m.statuses.map_values(|s: StatusModel| status_row_of(s))
}

pub open spec fn court_rows_of(m: DbModel) -> Seq<CourtSummaryModel> {
    m.courts.map_values(|c: CourtModel| court_row_of(c))
}

pub open spec fn case_views_of(m: DbModel) -> Seq<CaseViewModel> {
    m.cases.map_values(|c: CaseModel| case_view_of(m, c))
}

pub open spec fn document_metas_of(m: DbModel) -> Seq<DocumentMetaModel> {
    m.documents.map_values(|d: DocumentModel| document_meta_of(d))
}

pub open spec fn document_choices_of(m: DbModel) -> Seq<DocumentChoiceModel> {
    m.documents.map_values(|d: DocumentModel| document_choice_of(d))
}

impl Database {
    fn client_summary_row(&self, i: usize) -> (r: ClientSummary)
        requires
            self.wf(),
            i < self.clients@.len(),
        ensures
            r@ == client_summary_of(self@.clients[i as int]),
    {
        ClientSummary { id_cliente: self.clients[i].id, nome: self.clients[i].nome.clone() }
    }

    /// The lookup list of clients: id and name, by name.
    pub fn list_clients(&self) -> (r: Vec<ClientSummary>)
        requires
            self.wf(),
        ensures
            ordered(r@),
            seq_view(r@).to_multiset() == client_summaries_of(self@).to_multiset(),
    {
        let mut rows: Vec<ClientSummary> = Vec::new();
        let mut i: usize = 0;
        while i < self.clients.len()
            invariant
                self.wf(),
                0 <= i <= self.clients@.len(),
                seq_view(rows@) =~= client_summaries_of(self@).subrange(0, i as int),
            decreases self.clients@.len() - i,
        {
            let row = self.client_summary_row(i);
            let ghost pre_push = rows@;
            rows.push(row);
            proof {
                assert(rows@ == pre_push.push(row));
                assert(seq_view(rows@).len() == rows@.len());
                assert(seq_view(pre_push).len() == pre_push.len());
                assert(pre_push.len() == i);
                assert(client_summaries_of(self@).subrange(0, i + 1 as int).len() == i + 1);
                assert forall|k: int| 0 <= k < i + 1 implies seq_view(rows@)[k]
                    == client_summaries_of(self@).subrange(0, i + 1 as int)[k] by {
                    if k < i {
                        assert(seq_view(rows@)[k] == rows@[k]@);
                        assert(rows@[k] == pre_push[k]);
                        assert(seq_view(pre_push)[k] == pre_push[k]@);
                        assert(seq_view(pre_push)[k] == client_summaries_of(self@).subrange(0, i as int)[k]);
                    } else {
                        assert(seq_view(rows@)[k] == row@);
                    }
                }
                assert(seq_view(rows@) =~= client_summaries_of(self@).subrange(0, i + 1 as int));
            }
            i += 1;
        }
        proof {
            assert(client_summaries_of(self@).subrange(0, self@.clients.len() as int) =~= client_summaries_of(
                self@,
            ));
        }
        let ghost pre = rows@;
        sort_rows(&mut rows);
        proof {
            lemma_seq_view_multiset(rows@, pre);
        }
        rows
    }

    fn client_record_row(&self, i: usize) -> (r: ClientRecord)
        requires
            self.wf(),
            i < self.clients@.len(),
        ensures
            r@ == client_record_of(self@.clients[i as int]),
    {
        proof {
            assert((#[trigger] self@.clients[i as int]).data_cadastro matches Some(x) ==> x.wf());
        }
        let c = &self.clients[i];
        let data_cadastro: Option<String> = match &c.data_cadastro {
            Some(d) => Some(format_date(d)),
            None => None,
        };
        let (cpf, cnpj): (Option<String>, Option<String>) = match &c.kind {
            Some(ClientKind::Fisica(s)) => (Some(s.clone()), None),
            Some(ClientKind::Juridica(s)) => (None, Some(s.clone())),
            None => (None, None),
        };
        ClientRecord {
            id_cliente: c.id,
            nome: c.nome.clone(),
            email: clone_opt_string(&c.email),
            telefone: clone_opt_string(&c.telefone),
            endereco: clone_opt_string(&c.endereco),
            data_cadastro,
            cpf,
            cnpj,
        }
    }

    /// The full client page list: every column, nulls passed through, by name.
    pub fn list_clients_full(&self) -> (r: Vec<ClientRecord>)
        requires
            self.wf(),
        ensures
            ordered(r@),
            seq_view(r@).to_multiset() == client_records_of(self@).to_multiset(),
    {
        let mut rows: Vec<ClientRecord> = Vec::new();
        let mut i: usize = 0;
        while i < self.clients.len()
            invariant
                self.wf(),
                0 <= i <= self.clients@.len(),
                seq_view(rows@) =~= client_records_of(self@).subrange(0, i as int),
            decreases self.clients@.len() - i,
        {
            let row = self.client_record_row(i);
            let ghost pre_push = rows@;
            rows.push(row);
            proof {
                assert(rows@ == pre_push.push(row));
                assert(seq_view(rows@).len() == rows@.len());
                assert(seq_view(pre_push).len() == pre_push.len());
                assert(pre_push.len() == i);
                assert(client_records_of(self@).subrange(0, i + 1 as int).len() == i + 1);
                assert forall|k: int| 0 <= k < i + 1 implies seq_view(rows@)[k]
                    == client_records_of(self@).subrange(0, i + 1 as int)[k] by {
                    if k < i {
                        assert(seq_view(rows@)[k] == rows@[k]@);
                        assert(rows@[k] == pre_push[k]);
                        assert(seq_view(pre_push)[k] == pre_push[k]@);
                        assert(seq_view(pre_push)[k] == client_records_of(self@).subrange(0, i as int)[k]);
                    } else {
                        assert(seq_view(rows@)[k] == row@);
                    }
                }
                assert(seq_view(rows@) =~= client_records_of(self@).subrange(0, i + 1 as int));
            }
            i += 1;
        }
        proof {
            assert(client_records_of(self@).subrange(0, self@.clients.len() as int) =~= client_records_of(
                self@,
            ));
        }
        let ghost pre = rows@;
        sort_rows(&mut rows);
        proof {
            lemma_seq_view_multiset(rows@, pre);
        }
        rows
    }

    /// The single-client read: absent fields coalesce to the sentinel, and
    /// an id that resolves to no row is `NotFound`.
    pub fn get_client(&self, id: i32) -> (r: Result<ClientDetail, GatewayError>)
        requires
            self.wf(),
        ensures
            (r matches Ok(d) ==> self@.has_client(id) && d@ == client_detail_of(
                self@.clients[self@.client_idx(id)],
            )),
            (r matches Err(e) ==> !self@.has_client(id) && e == GatewayError::NotFound),
    {
        let i = match self.client_pos(id) {
            Some(i) => i,
            None => {
                return Err(GatewayError::NotFound);
            },
        };
        proof {
            assert((#[trigger] self@.clients[i as int]).data_cadastro matches Some(x) ==> x.wf());
        }
        let c = &self.clients[i];
        let email = match &c.email {
            Some(s) => s.clone(),
            None => sentinel_string(),
        };
        let telefone = match &c.telefone {
            Some(s) => s.clone(),
            None => sentinel_string(),
        };
        let endereco = match &c.endereco {
            Some(s) => s.clone(),
            None => sentinel_string(),
        };
        let data_cadastro = match &c.data_cadastro {
            Some(d) => format_date(d),
            None => sentinel_string(),
        };
        let (cpf, cnpj): (Option<String>, Option<String>) = match &c.kind {
            Some(ClientKind::Fisica(s)) => (Some(s.clone()), None),
            Some(ClientKind::Juridica(s)) => (None, Some(s.clone())),
            None => (None, None),
        };
        Ok(
            ClientDetail {
                id_cliente: c.id,
                nome: c.nome.clone(),
                email,
                telefone,
                endereco,
                data_cadastro,
                cpf,
                cnpj,
            },
        )
    }

    /// The lawyer list: id, name and bar number, by name.
    pub fn list_lawyers(&self) -> (r: Vec<LawyerRow>)
        requires
            self.wf(),
        ensures
            ordered(r@),
            seq_view(r@).to_multiset() == lawyer_rows_of(self@).to_multiset(),
    {
        let mut rows: Vec<LawyerRow> = Vec::new();
        let mut i: usize = 0;
        while i < self.lawyers.len()
            invariant
                self.wf(),
                0 <= i <= self.lawyers@.len(),
                seq_view(rows@) =~= lawyer_rows_of(self@).subrange(0, i as int),
            decreases self.lawyers@.len() - i,
        {
            let l = &self.lawyers[i];
            let row = LawyerRow { id: l.id, nome: l.nome.clone(), oab: l.oab.clone() };
            let ghost pre_push = rows@;
            rows.push(row);
            proof {
                assert(rows@ == pre_push.push(row));
                assert(seq_view(rows@).len() == rows@.len());
                assert(seq_view(pre_push).len() == pre_push.len());
                assert(pre_push.len() == i);
                assert(lawyer_rows_of(self@).subrange(0, i + 1 as int).len() == i + 1);
                assert forall|k: int| 0 <= k < i + 1 implies seq_view(rows@)[k]
                    == lawyer_rows_of(self@).subrange(0, i + 1 as int)[k] by {
                    if k < i {
                        assert(seq_view(rows@)[k] == rows@[k]@);
                        assert(rows@[k] == pre_push[k]);
                        assert(seq_view(pre_push)[k] == pre_push[k]@);
                        assert(seq_view(pre_push)[k] == lawyer_rows_of(self@).subrange(0, i as int)[k]);
                    } else {
                        assert(seq_view(rows@)[k] == row@);
                    }
                }
                assert(seq_view(rows@) =~= lawyer_rows_of(self@).subrange(0, i + 1 as int));
            }
            i += 1;
        }
        proof {
            assert(lawyer_rows_of(self@).subrange(0, self@.lawyers.len() as int) =~= lawyer_rows_of(
                self@,
            ));
        }
        let ghost pre = rows@;
        sort_rows(&mut rows);
        proof {
            lemma_seq_view_multiset(rows@, pre);
        }
        rows
    }

    /// The status lookup list, by description.
    pub fn list_statuses(&self) -> (r: Vec<StatusSummary>)
        requires
            self.wf(),
        ensures
            ordered(r@),
            seq_view(r@).to_multiset() == status_rows_of(self@).to_multiset(),
    {
        let mut rows: Vec<StatusSummary> = Vec::new();
        let mut i: usize = 0;
        while i < self.statuses.len()
            invariant
                self.wf(),
                0 <= i <= self.statuses@.len(),
                seq_view(rows@) =~= status_rows_of(self@).subrange(0, i as int),
            decreases self.statuses@.len() - i,
        {
            let s = &self.statuses[i];
            let row = StatusSummary { id: s.id, nome: s.descricao.clone() };
            let ghost pre_push = rows@;
            rows.push(row);
            proof {
                assert(rows@ == pre_push.push(row));
                assert(seq_view(rows@).len() == rows@.len());
                assert(seq_view(pre_push).len() == pre_push.len());
                assert(pre_push.len() == i);
                assert(status_rows_of(self@).subrange(0, i + 1 as int).len() == i + 1);
                assert forall|k: int| 0 <= k < i + 1 implies seq_view(rows@)[k]
                    == status_rows_of(self@).subrange(0, i + 1 as int)[k] by {
                    if k < i {
                        assert(seq_view(rows@)[k] == rows@[k]@);
                        assert(rows@[k] == pre_push[k]);
                        assert(seq_view(pre_push)[k] == pre_push[k]@);
                        assert(seq_view(pre_push)[k] == status_rows_of(self@).subrange(0, i as int)[k]);
                    } else {
                        assert(seq_view(rows@)[k] == row@);
                    }
                }
                assert(seq_view(rows@) =~= status_rows_of(self@).subrange(0, i + 1 as int));
            }
            i += 1;
        }
        proof {
            assert(status_rows_of(self@).subrange(0, self@.statuses.len() as int) =~= status_rows_of(
                self@,
            ));
        }
        let ghost pre = rows@;
        sort_rows(&mut rows);
        proof {
            lemma_seq_view_multiset(rows@, pre);
        }
        rows
    }

    /// The judicial court lookup list, by name.
    pub fn list_courts(&self) -> (r: Vec<CourtSummary>)
        requires
            self.wf(),
        ensures
            ordered(r@),
            seq_view(r@).to_multiset() == court_rows_of(self@).to_multiset(),
    {
        let mut rows: Vec<CourtSummary> = Vec::new();
        let mut i: usize = 0;
        while i < self.courts.len()
            invariant
                self.wf(),
                0 <= i <= self.courts@.len(),
                seq_view(rows@) =~= court_rows_of(self@).subrange(0, i as int),
            decreases self.courts@.len() - i,
        {
            let c = &self.courts[i];
            let row = CourtSummary { id: c.id, nome: c.nome_vara.clone() };
            let ghost pre_push = rows@;
            rows.push(row);
            proof {
                assert(rows@ == pre_push.push(row));
                assert(seq_view(rows@).len() == rows@.len());
                assert(seq_view(pre_push).len() == pre_push.len());
                assert(pre_push.len() == i);
                assert(court_rows_of(self@).subrange(0, i + 1 as int).len() == i + 1);
                assert forall|k: int| 0 <= k < i + 1 implies seq_view(rows@)[k]
                    == court_rows_of(self@).subrange(0, i + 1 as int)[k] by {
                    if k < i {
                        assert(seq_view(rows@)[k] == rows@[k]@);
                        assert(rows@[k] == pre_push[k]);
                        assert(seq_view(pre_push)[k] == pre_push[k]@);
                        assert(seq_view(pre_push)[k] == court_rows_of(self@).subrange(0, i as int)[k]);
                    } else {
                        assert(seq_view(rows@)[k] == row@);
                    }
                }
                assert(seq_view(rows@) =~= court_rows_of(self@).subrange(0, i + 1 as int));
            }
            i += 1;
        }
        proof {
            assert(court_rows_of(self@).subrange(0, self@.courts.len() as int) =~= court_rows_of(
                self@,
            ));
        }
        let ghost pre = rows@;
        sort_rows(&mut rows);
        proof {
            lemma_seq_view_multiset(rows@, pre);
        }
        rows
    }

    fn case_view_row(&self, i: usize) -> (r: CaseView)
        requires
            self.wf(),
            i < self.cases@.len(),
        ensures
            r@ == case_view_of(self@, self@.cases[i as int]),
    {
        proof {
            assert(self@.case_refs_ok(#[trigger] self@.cases[i as int]));
            assert((#[trigger] self@.cases[i as int]).data_abertura.wf() && (
            self@.cases[i as int].data_fechamento matches Some(d) ==> d.wf()));
        }
        let c = &self.cases[i];
        let ci = match self.client_pos(c.id_cliente) {
            Some(x) => x,
            None => vstd::pervasive::unreached(),
        };
        let li = match self.lawyer_pos(c.id_advogado) {
            Some(x) => x,
            None => vstd::pervasive::unreached(),
        };
        let si = match self.status_pos(c.id_status) {
            Some(x) => x,
            None => vstd::pervasive::unreached(),
        };
        let nome_vara: Option<String> = match c.id_vara_judicial {
            Some(v) => {
                match self.court_pos(v) {
                    Some(x) => Some(self.courts[x].nome_vara.clone()),
                    None => vstd::pervasive::unreached(),
                }
            },
            None => None,
        };
        let categoria_descricao: Option<String> = match c.id_categoria_caso {
            Some(v) => {
                match self.category_pos(v) {
                    Some(x) => Some(self.categories[x].descricao.clone()),
                    None => vstd::pervasive::unreached(),
                }
            },
            None => None,
        };
        let data_fechamento: Option<String> = match &c.data_fechamento {
            Some(d) => Some(format_date(d)),
            None => None,
        };
        CaseView {
            id_caso: c.id,
            descricao: clone_opt_string(&c.descricao),
            numero_processo: clone_opt_string(&c.numero_processo),
            data_abertura: format_date(&c.data_abertura),
            data_fechamento,
            id_cliente: c.id_cliente,
            cliente_nome: self.clients[ci].nome.clone(),
            cliente_email: clone_opt_string(&self.clients[ci].email),
            id_advogado: c.id_advogado,
            advogado_nome: self.lawyers[li].nome.clone(),
            advogado_oab: self.lawyers[li].oab.clone(),
            id_status: c.id_status,
            status_descricao: self.statuses[si].descricao.clone(),
            id_vara_judicial: c.id_vara_judicial,
            nome_vara,
            id_categoria_caso: c.id_categoria_caso,
            categoria_descricao,
        }
    }

    /// The joined case list, newest open date first.
    pub fn list_cases(&self) -> (r: Vec<CaseView>)
        requires
            self.wf(),
        ensures
            ordered(r@),
            seq_view(r@).to_multiset() == case_views_of(self@).to_multiset(),
    {
        let mut rows: Vec<CaseView> = Vec::new();
        let mut i: usize = 0;
        while i < self.cases.len()
            invariant
                self.wf(),
                0 <= i <= self.cases@.len(),
                seq_view(rows@) =~= case_views_of(self@).subrange(0, i as int),
            decreases self.cases@.len() - i,
        {
            let row = self.case_view_row(i);
            let ghost pre_push = rows@;
            rows.push(row);
            proof {
                assert(rows@ == pre_push.push(row));
                assert(seq_view(rows@).len() == rows@.len());
                assert(seq_view(pre_push).len() == pre_push.len());
                assert(pre_push.len() == i);
                assert(case_views_of(self@).subrange(0, i + 1 as int).len() == i + 1);
                assert forall|k: int| 0 <= k < i + 1 implies seq_view(rows@)[k]
                    == case_views_of(self@).subrange(0, i + 1 as int)[k] by {
                    if k < i {
                        assert(seq_view(rows@)[k] == rows@[k]@);
                        assert(rows@[k] == pre_push[k]);
                        assert(seq_view(pre_push)[k] == pre_push[k]@);
                        assert(seq_view(pre_push)[k] == case_views_of(self@).subrange(0, i as int)[k]);
                    } else {
                        assert(seq_view(rows@)[k] == row@);
                    }
                }
                assert(seq_view(rows@) =~= case_views_of(self@).subrange(0, i + 1 as int));
            }
            i += 1;
        }
        proof {
            assert(case_views_of(self@).subrange(0, self@.cases.len() as int) =~= case_views_of(
                self@,
            ));
        }
        let ghost pre = rows@;
        sort_rows(&mut rows);
        proof {
            lemma_seq_view_multiset(rows@, pre);
        }
        rows
    }

    /// The single-case read: the joined row, or `NotFound`.
    pub fn get_case(&self, id: i32) -> (r: Result<CaseView, GatewayError>)
        requires
            self.wf(),
        ensures
            (r matches Ok(v) ==> self@.has_case(id) && v@ == case_view_of(
                self@,
                self@.cases[self@.case_idx(id)],
            )),
            (r matches Err(e) ==> !self@.has_case(id) && e == GatewayError::NotFound),
    {
        let i = match self.case_pos(id) {
            Some(i) => i,
            None => {
                return Err(GatewayError::NotFound);
            },
        };
        Ok(self.case_view_row(i))
    }

    fn document_meta_row(&self, i: usize) -> (r: DocumentMeta)
        requires
            self.wf(),
            i < self.documents@.len(),
        ensures
            r@ == document_meta_of(self@.documents[i as int]),
    {
        proof {
            assert((#[trigger] self@.documents[i as int]).data_envio matches Some(y) ==> y.wf());
        }
        let d = &self.documents[i];
        let data_envio: Option<String> = match &d.data_envio {
            Some(x) => Some(format_date(x)),
            None => None,
        };
        DocumentMeta {
            id_documento: d.id,
            id_caso: d.id_caso,
            descricao: d.descricao.clone(),
            data_envio,
            nome_arquivo: d.nome_arquivo.clone(),
        }
    }

    /// The document listing: metadata only, newest send date first; the row type has no field for the stored bytes.
    pub fn list_documents(&self) -> (r: Vec<DocumentMeta>)
        requires
            self.wf(),
        ensures
            ordered(r@),
            seq_view(r@).to_multiset() == document_metas_of(self@).to_multiset(),
    {
        let mut rows: Vec<DocumentMeta> = Vec::new();
        let mut i: usize = 0;
        while i < self.documents.len()
            invariant
                self.wf(),
                0 <= i <= self.documents@.len(),
                seq_view(rows@) =~= document_metas_of(self@).subrange(0, i as int),
            decreases self.documents@.len() - i,
        {
            let row = self.document_meta_row(i);
            let ghost pre_push = rows@;
            rows.push(row);
            proof {
                assert(rows@ == pre_push.push(row));
                assert(seq_view(rows@).len() == rows@.len());
                assert(seq_view(pre_push).len() == pre_push.len());
                assert(pre_push.len() == i);
                assert(document_metas_of(self@).subrange(0, i + 1 as int).len() == i + 1);
                assert forall|k: int| 0 <= k < i + 1 implies seq_view(rows@)[k]
                    == document_metas_of(self@).subrange(0, i + 1 as int)[k] by {
                    if k < i {
                        assert(seq_view(rows@)[k] == rows@[k]@);
                        assert(rows@[k] == pre_push[k]);
                        assert(seq_view(pre_push)[k] == pre_push[k]@);
                        assert(seq_view(pre_push)[k] == document_metas_of(self@).subrange(0, i as int)[k]);
                    } else {
                        assert(seq_view(rows@)[k] == row@);
                    }
                }
                assert(seq_view(rows@) =~= document_metas_of(self@).subrange(0, i + 1 as int));
            }
            i += 1;
        }
        proof {
            assert(document_metas_of(self@).subrange(0, self@.documents.len() as int) =~= document_metas_of(
                self@,
            ));
        }
        let ghost pre = rows@;
        sort_rows(&mut rows);
        proof {
            lemma_seq_view_multiset(rows@, pre);
        }
        rows
    }

    /// The single-document read: metadata, or `NotFound`.
    pub fn get_document(&self, id: i32) -> (r: Result<DocumentMeta, GatewayError>)
        requires
            self.wf(),
        ensures
            (r matches Ok(d) ==> self@.has_document(id) && d@ == document_meta_of(
                self@.documents[self@.document_idx(id)],
            )),
            (r matches Err(e) ==> !self@.has_document(id) && e == GatewayError::NotFound),
    {
        let i = match self.document_pos(id) {
            Some(i) => i,
            None => {
                return Err(GatewayError::NotFound);
            },
        };
        Ok(self.document_meta_row(i))
    }

    /// The document picker: id and file name, by file name.
    pub fn list_documents_by_name(&self) -> (r: Vec<DocumentChoice>)
        requires
            self.wf(),
        ensures
            ordered(r@),
            seq_view(r@).to_multiset() == document_choices_of(self@).to_multiset(),
    {
        let mut rows: Vec<DocumentChoice> = Vec::new();
        let mut i: usize = 0;
        while i < self.documents.len()
            invariant
                self.wf(),
                0 <= i <= self.documents@.len(),
                seq_view(rows@) =~= document_choices_of(self@).subrange(0, i as int),
            decreases self.documents@.len() - i,
        {
            let d = &self.documents[i];
            let row = DocumentChoice { id_documento: d.id, nome_arquivo: d.nome_arquivo.clone() };
            let ghost pre_push = rows@;
            rows.push(row);
            proof {
                assert(rows@ == pre_push.push(row));
                assert(seq_view(rows@).len() == rows@.len());
                assert(seq_view(pre_push).len() == pre_push.len());
                assert(pre_push.len() == i);
                assert(document_choices_of(self@).subrange(0, i + 1 as int).len() == i + 1);
                assert forall|k: int| 0 <= k < i + 1 implies seq_view(rows@)[k]
                    == document_choices_of(self@).subrange(0, i + 1 as int)[k] by {
                    if k < i {
                        assert(seq_view(rows@)[k] == rows@[k]@);
                        assert(rows@[k] == pre_push[k]);
                        assert(seq_view(pre_push)[k] == pre_push[k]@);
                        assert(seq_view(pre_push)[k] == document_choices_of(self@).subrange(0, i as int)[k]);
                    } else {
                        assert(seq_view(rows@)[k] == row@);
                    }
                }
                assert(seq_view(rows@) =~= document_choices_of(self@).subrange(0, i + 1 as int));
            }
            i += 1;
        }
        proof {
            assert(document_choices_of(self@).subrange(0, self@.documents.len() as int) =~= document_choices_of(
                self@,
            ));
        }
        let ghost pre = rows@;
        sort_rows(&mut rows);
        proof {
            lemma_seq_view_multiset(rows@, pre);
        }
        rows
    }

}

} // verus!
