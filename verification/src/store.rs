//! The store: one value holding every table, with the invariant that the
//! relational schema enforces — unique surrogate ids below the next free id,
//! foreign keys that resolve, unique business keys, and well-formed dates.

use vstd::prelude::*;
use crate::domain::{
    Category, CategoryModel, CaseModel, CaseRec, Client, ClientKind, ClientKindModel, ClientModel,
    Court, CourtModel, DocumentModel, DocumentRec, Lawyer, LawyerModel, StatusModel, StatusRow,
};
use crate::text::str_eq;

verus! {

pub struct Database {
    pub clients: Vec<Client>,
    pub lawyers: Vec<Lawyer>,
    pub statuses: Vec<StatusRow>,
    pub courts: Vec<Court>,
    pub categories: Vec<Category>,
    pub cases: Vec<CaseRec>,
    pub documents: Vec<DocumentRec>,
    pub next_client_id: i32,
    pub next_lawyer_id: i32,
    pub next_status_id: i32,
    pub next_court_id: i32,
    pub next_category_id: i32,
    pub next_case_id: i32,
    pub next_document_id: i32,
}

#[verifier::ext_equal]
pub struct DbModel {
    pub clients: Seq<ClientModel>,
    pub lawyers: Seq<LawyerModel>,
    pub statuses: Seq<StatusModel>,
    pub courts: Seq<CourtModel>,
    pub categories: Seq<CategoryModel>,
    pub cases: Seq<CaseModel>,
    pub documents: Seq<DocumentModel>,
    pub next_client_id: i32,
    pub next_lawyer_id: i32,
    pub next_status_id: i32,
    pub next_court_id: i32,
    pub next_category_id: i32,
    pub next_case_id: i32,
    pub next_document_id: i32,
}

impl View for Database {
    type V = DbModel;

    open spec fn view(&self) -> DbModel {
        DbModel {
            clients: self.clients@.map_values(|c: Client| c@),
            lawyers: self.lawyers@.map_values(|l: Lawyer| l@),
            statuses: self.statuses@.map_values(|s: StatusRow| s@),
            courts: self.courts@.map_values(|c: Court| c@),
            categories: self.categories@.map_values(|c: Category| c@),
            cases: self.cases@.map_values(|c: CaseRec| c@),
            documents: self.documents@.map_values(|d: DocumentRec| d@),
            next_client_id: self.next_client_id,
            next_lawyer_id: self.next_lawyer_id,
            next_status_id: self.next_status_id,
            next_court_id: self.next_court_id,
            next_category_id: self.next_category_id,
            next_case_id: self.next_case_id,
            next_document_id: self.next_document_id,
        }
    }
}

pub open spec fn cpf_of(k: Option<ClientKindModel>) -> Option<Seq<char>> {
    match k {
        Some(ClientKindModel::Fisica(c)) => Some(c),
        _ => None,
    }
}

pub open spec fn cnpj_of(k: Option<ClientKindModel>) -> Option<Seq<char>> {
    match k {
        Some(ClientKindModel::Juridica(c)) => Some(c),
        _ => None,
    }
}

/// What the schema asks of two distinct client rows.
pub open spec fn client_pair_ok(a: ClientModel, b: ClientModel) -> bool {
    a.id != b.id && (cpf_of(a.kind) is Some ==> cpf_of(a.kind) != cpf_of(b.kind)) && (cnpj_of(
        a.kind,
    ) is Some ==> cnpj_of(a.kind) != cnpj_of(b.kind))
}

pub open spec fn lawyer_pair_ok(a: LawyerModel, b: LawyerModel) -> bool {
    a.id != b.id && a.oab != b.oab
}

pub open spec fn case_pair_ok(a: CaseModel, b: CaseModel) -> bool {
    a.id != b.id && (a.numero_processo is Some ==> a.numero_processo != b.numero_processo)
}

impl DbModel {
    pub open spec fn has_client(self, id: i32) -> bool {
        exists|i: int| 0 <= i < self.clients.len() && (#[trigger] self.clients[i]).id == id
    }

    pub open spec fn client_idx(self, id: i32) -> int {
        choose|i: int| 0 <= i < self.clients.len() && (#[trigger] self.clients[i]).id == id
    }

    pub open spec fn has_lawyer(self, id: i32) -> bool {
        exists|i: int| 0 <= i < self.lawyers.len() && (#[trigger] self.lawyers[i]).id == id
    }

    pub open spec fn lawyer_idx(self, id: i32) -> int {
        choose|i: int| 0 <= i < self.lawyers.len() && (#[trigger] self.lawyers[i]).id == id
    }

    pub open spec fn has_status(self, id: i32) -> bool {
        exists|i: int| 0 <= i < self.statuses.len() && (#[trigger] self.statuses[i]).id == id
    }

    pub open spec fn status_idx(self, id: i32) -> int {
        choose|i: int| 0 <= i < self.statuses.len() && (#[trigger] self.statuses[i]).id == id
    }

    pub open spec fn has_court(self, id: i32) -> bool {
        exists|i: int| 0 <= i < self.courts.len() && (#[trigger] self.courts[i]).id == id
    }

    pub open spec fn court_idx(self, id: i32) -> int {
        choose|i: int| 0 <= i < self.courts.len() && (#[trigger] self.courts[i]).id == id
    }

    pub open spec fn has_category(self, id: i32) -> bool {
        exists|i: int| 0 <= i < self.categories.len() && (#[trigger] self.categories[i]).id == id
    }

    pub open spec fn category_idx(self, id: i32) -> int {
        choose|i: int| 0 <= i < self.categories.len() && (#[trigger] self.categories[i]).id == id
    }

    pub open spec fn has_case(self, id: i32) -> bool {
        exists|i: int| 0 <= i < self.cases.len() && (#[trigger] self.cases[i]).id == id
    }

    pub open spec fn case_idx(self, id: i32) -> int {
        choose|i: int| 0 <= i < self.cases.len() && (#[trigger] self.cases[i]).id == id
    }

    pub open spec fn has_document(self, id: i32) -> bool {
        exists|i: int| 0 <= i < self.documents.len() && (#[trigger] self.documents[i]).id == id
    }

    pub open spec fn document_idx(self, id: i32) -> int {
        choose|i: int| 0 <= i < self.documents.len() && (#[trigger] self.documents[i]).id == id
    }

    pub open spec fn cpf_taken(self, s: Seq<char>) -> bool {
        exists|i: int|
            0 <= i < self.clients.len() && cpf_of((#[trigger] self.clients[i]).kind) == Some(s)
    }

    pub open spec fn cnpj_taken(self, s: Seq<char>) -> bool {
        exists|i: int|
            0 <= i < self.clients.len() && cnpj_of((#[trigger] self.clients[i]).kind) == Some(s)
    }

    pub open spec fn cpf_taken_other(self, s: Seq<char>, id: i32) -> bool {
        exists|i: int|
            0 <= i < self.clients.len() && (#[trigger] self.clients[i]).id != id && cpf_of(
                self.clients[i].kind,
            ) == Some(s)
    }

    pub open spec fn cnpj_taken_other(self, s: Seq<char>, id: i32) -> bool {
        exists|i: int|
            0 <= i < self.clients.len() && (#[trigger] self.clients[i]).id != id && cnpj_of(
                self.clients[i].kind,
            ) == Some(s)
    }

    pub open spec fn oab_taken(self, s: Seq<char>) -> bool {
        exists|i: int| 0 <= i < self.lawyers.len() && (#[trigger] self.lawyers[i]).oab == s
    }

    pub open spec fn processo_taken(self, s: Seq<char>) -> bool {
        exists|i: int|
            0 <= i < self.cases.len() && (#[trigger] self.cases[i]).numero_processo == Some(s)
    }

    pub open spec fn processo_taken_other(self, s: Seq<char>, id: i32) -> bool {
        exists|i: int|
            0 <= i < self.cases.len() && (#[trigger] self.cases[i]).id != id
                && self.cases[i].numero_processo == Some(s)
    }

    /// Does some case reference this client?
    pub open spec fn client_referenced(self, id: i32) -> bool {
        exists|i: int| 0 <= i < self.cases.len() && (#[trigger] self.cases[i]).id_cliente == id
    }

    /// Does some document reference this case?
    pub open spec fn case_referenced(self, id: i32) -> bool {
        exists|i: int| 0 <= i < self.documents.len() && (#[trigger] self.documents[i]).id_caso == id
    }

    pub open spec fn client_ids_ok(self) -> bool {
        &&& 1 <= self.next_client_id
        &&& forall|i: int|
            0 <= i < self.clients.len() ==> 1 <= (#[trigger] self.clients[i]).id
                < self.next_client_id
        &&& forall|p: int, q: int|
            0 <= p < q < self.clients.len() ==> client_pair_ok(
                #[trigger] self.clients[p],
                #[trigger] self.clients[q],
            )
    }

    pub open spec fn lawyer_ids_ok(self) -> bool {
        &&& 1 <= self.next_lawyer_id
        &&& forall|i: int|
            0 <= i < self.lawyers.len() ==> 1 <= (#[trigger] self.lawyers[i]).id
                < self.next_lawyer_id
        &&& forall|p: int, q: int|
            0 <= p < q < self.lawyers.len() ==> lawyer_pair_ok(
                #[trigger] self.lawyers[p],
                #[trigger] self.lawyers[q],
            )
    }

    pub open spec fn status_ids_ok(self) -> bool {
        &&& 1 <= self.next_status_id
        &&& forall|i: int|
            0 <= i < self.statuses.len() ==> 1 <= (#[trigger] self.statuses[i]).id
                < self.next_status_id
        &&& forall|p: int, q: int|
            0 <= p < q < self.statuses.len() ==> (#[trigger] self.statuses[p]).id
                != (#[trigger] self.statuses[q]).id
    }

    pub open spec fn court_ids_ok(self) -> bool {
        &&& 1 <= self.next_court_id
        &&& forall|i: int|
            0 <= i < self.courts.len() ==> 1 <= (#[trigger] self.courts[i]).id
                < self.next_court_id
        &&& forall|p: int, q: int|
            0 <= p < q < self.courts.len() ==> (#[trigger] self.courts[p]).id
                != (#[trigger] self.courts[q]).id
    }

    pub open spec fn category_ids_ok(self) -> bool {
        &&& 1 <= self.next_category_id
        &&& forall|i: int|
            0 <= i < self.categories.len() ==> 1 <= (#[trigger] self.categories[i]).id
                < self.next_category_id
        &&& forall|p: int, q: int|
            0 <= p < q < self.categories.len() ==> (#[trigger] self.categories[p]).id
                != (#[trigger] self.categories[q]).id
    }

    pub open spec fn case_ids_ok(self) -> bool {
        &&& 1 <= self.next_case_id
        &&& forall|i: int|
            0 <= i < self.cases.len() ==> 1 <= (#[trigger] self.cases[i]).id < self.next_case_id
        &&& forall|p: int, q: int|
            0 <= p < q < self.cases.len() ==> case_pair_ok(
                #[trigger] self.cases[p],
                #[trigger] self.cases[q],
            )
    }

    pub open spec fn document_ids_ok(self) -> bool {
        &&& 1 <= self.next_document_id
        &&& forall|i: int|
            0 <= i < self.documents.len() ==> 1 <= (#[trigger] self.documents[i]).id
                < self.next_document_id
        &&& forall|p: int, q: int|
            0 <= p < q < self.documents.len() ==> (#[trigger] self.documents[p]).id
                != (#[trigger] self.documents[q]).id
    }

    /// Every foreign key of a case resolves to a row.
    pub open spec fn case_refs_ok(self, c: CaseModel) -> bool {
        &&& self.has_client(c.id_cliente)
        &&& self.has_lawyer(c.id_advogado)
        &&& self.has_status(c.id_status)
        &&& (c.id_vara_judicial matches Some(v) ==> self.has_court(v))
        &&& (c.id_categoria_caso matches Some(v) ==> self.has_category(v))
    }

    pub open spec fn dates_ok(self) -> bool {
        &&& forall|i: int|
            0 <= i < self.clients.len() ==> ((#[trigger] self.clients[i]).data_cadastro matches Some(
                d,
            ) ==> d.wf())
        &&& forall|i: int|
            0 <= i < self.cases.len() ==> (#[trigger] self.cases[i]).data_abertura.wf()
                && (self.cases[i].data_fechamento matches Some(d) ==> d.wf())
        &&& forall|i: int|
            0 <= i < self.documents.len() ==> ((#[trigger] self.documents[i]).data_envio matches Some(
                d,
            ) ==> d.wf())
    }

    /// The whole store invariant.
    pub open spec fn wf(self) -> bool {
        &&& self.client_ids_ok()
        &&& self.lawyer_ids_ok()
        &&& self.status_ids_ok()
        &&& self.court_ids_ok()
        &&& self.category_ids_ok()
        &&& self.case_ids_ok()
        &&& self.document_ids_ok()
        &&& forall|i: int| 0 <= i < self.cases.len() ==> self.case_refs_ok(#[trigger] self.cases[i])
        &&& forall|i: int|
            0 <= i < self.documents.len() ==> self.has_case(
                (#[trigger] self.documents[i]).id_caso,
            )
        &&& self.dates_ok()
    }
}

pub open spec fn init_model() -> DbModel {
    DbModel {
        clients: Seq::empty(),
        lawyers: Seq::empty(),
        statuses: Seq::empty(),
        courts: Seq::empty(),
        categories: Seq::empty(),
        cases: Seq::empty(),
        documents: Seq::empty(),
        next_client_id: 1,
        next_lawyer_id: 1,
        next_status_id: 1,
        next_court_id: 1,
        next_category_id: 1,
        next_case_id: 1,
        next_document_id: 1,
    }
}

impl Database {
    pub open spec fn wf(&self) -> bool {
        self@.wf()
    }

    /// An empty store.
    pub fn new() -> (r: Database)
        ensures
            r.wf(),
            r@ == init_model(),
    {
        let r = Database {
            clients: Vec::new(),
            lawyers: Vec::new(),
            statuses: Vec::new(),
            courts: Vec::new(),
            categories: Vec::new(),
            cases: Vec::new(),
            documents: Vec::new(),
            next_client_id: 1,
            next_lawyer_id: 1,
            next_status_id: 1,
            next_court_id: 1,
            next_category_id: 1,
            next_case_id: 1,
            next_document_id: 1,
        };
        proof {
            assert(r@.clients =~= init_model().clients);
            assert(r@.lawyers =~= init_model().lawyers);
            assert(r@.statuses =~= init_model().statuses);
            assert(r@.courts =~= init_model().courts);
            assert(r@.categories =~= init_model().categories);
            assert(r@.cases =~= init_model().cases);
            assert(r@.documents =~= init_model().documents);
        }
        r
    }

    pub fn has_client(&self, id: i32) -> (r: bool)
        ensures
            r == self@.has_client(id),
    {
        let mut i: usize = 0;
        while i < self.clients.len()
            invariant
                0 <= i <= self.clients@.len(),
                forall|k: int| 0 <= k < i ==> (#[trigger] self@.clients[k]).id != id,
            decreases self.clients@.len() - i,
        {
            if self.clients[i].id == id {
                proof {
                    assert((#[trigger] self@.clients[i as int]).id == id);
                }
                return true;
            }
            i += 1;
        }
        false
    }

    pub fn client_pos(&self, id: i32) -> (r: Option<usize>)
        requires
            self.wf(),
        ensures
            (r matches Some(i) ==> self@.has_client(id) && i == self@.client_idx(id) && 0 <= i
                < self.clients@.len()),
            (r is None ==> !self@.has_client(id)),
    {
        let mut i: usize = 0;
        while i < self.clients.len()
            invariant
                0 <= i <= self.clients@.len(),
                self.wf(),
                forall|k: int| 0 <= k < i ==> (#[trigger] self@.clients[k]).id != id,
            decreases self.clients@.len() - i,
        {
            if self.clients[i].id == id {
                proof {
                    assert((#[trigger] self@.clients[i as int]).id == id);
                    let j = self@.client_idx(id);
                    if j != i as int {
                        if j < i as int {
                            assert(client_pair_ok(self@.clients[j], self@.clients[i as int]));
                        } else {
                            assert(client_pair_ok(self@.clients[i as int], self@.clients[j]));
                        }
                    }
                }
                return Some(i);
            }
            i += 1;
        }
        None
    }

    pub fn has_lawyer(&self, id: i32) -> (r: bool)
        ensures
            r == self@.has_lawyer(id),
    {
        let mut i: usize = 0;
        while i < self.lawyers.len()
            invariant
                0 <= i <= self.lawyers@.len(),
                forall|k: int| 0 <= k < i ==> (#[trigger] self@.lawyers[k]).id != id,
            decreases self.lawyers@.len() - i,
        {
            if self.lawyers[i].id == id {
                proof {
                    assert((#[trigger] self@.lawyers[i as int]).id == id);
                }
                return true;
            }
            i += 1;
        }
        false
    }

    pub fn has_status(&self, id: i32) -> (r: bool)
        ensures
            r == self@.has_status(id),
    {
        let mut i: usize = 0;
        while i < self.statuses.len()
            invariant
                0 <= i <= self.statuses@.len(),
                forall|k: int| 0 <= k < i ==> (#[trigger] self@.statuses[k]).id != id,
            decreases self.statuses@.len() - i,
        {
            if self.statuses[i].id == id {
                proof {
                    assert((#[trigger] self@.statuses[i as int]).id == id);
                }
                return true;
            }
            i += 1;
        }
        false
    }

    pub fn has_court(&self, id: i32) -> (r: bool)
        ensures
            r == self@.has_court(id),
    {
        let mut i: usize = 0;
        while i < self.courts.len()
            invariant
                0 <= i <= self.courts@.len(),
                forall|k: int| 0 <= k < i ==> (#[trigger] self@.courts[k]).id != id,
            decreases self.courts@.len() - i,
        {
            if self.courts[i].id == id {
                proof {
                    assert((#[trigger] self@.courts[i as int]).id == id);
                }
                return true;
            }
            i += 1;
        }
        false
    }

    pub fn has_category(&self, id: i32) -> (r: bool)
        ensures
            r == self@.has_category(id),
    {
        let mut i: usize = 0;
        while i < self.categories.len()
            invariant
                0 <= i <= self.categories@.len(),
                forall|k: int| 0 <= k < i ==> (#[trigger] self@.categories[k]).id != id,
            decreases self.categories@.len() - i,
        {
            if self.categories[i].id == id {
                proof {
                    assert((#[trigger] self@.categories[i as int]).id == id);
                }
                return true;
            }
            i += 1;
        }
        false
    }

    pub fn has_case(&self, id: i32) -> (r: bool)
        ensures
            r == self@.has_case(id),
    {
        let mut i: usize = 0;
        while i < self.cases.len()
            invariant
                0 <= i <= self.cases@.len(),
                forall|k: int| 0 <= k < i ==> (#[trigger] self@.cases[k]).id != id,
            decreases self.cases@.len() - i,
        {
            if self.cases[i].id == id {
                proof {
                    assert((#[trigger] self@.cases[i as int]).id == id);
                }
                return true;
            }
            i += 1;
        }
        false
    }

    pub fn case_pos(&self, id: i32) -> (r: Option<usize>)
        requires
            self.wf(),
        ensures
            (r matches Some(i) ==> self@.has_case(id) && i == self@.case_idx(id) && 0 <= i
                < self.cases@.len()),
            (r is None ==> !self@.has_case(id)),
    {
        let mut i: usize = 0;
        while i < self.cases.len()
            invariant
                0 <= i <= self.cases@.len(),
                self.wf(),
                forall|k: int| 0 <= k < i ==> (#[trigger] self@.cases[k]).id != id,
            decreases self.cases@.len() - i,
        {
            if self.cases[i].id == id {
                proof {
                    assert((#[trigger] self@.cases[i as int]).id == id);
                    let j = self@.case_idx(id);
                    if j != i as int {
                        if j < i as int {
                            assert(case_pair_ok(self@.cases[j], self@.cases[i as int]));
                        } else {
                            assert(case_pair_ok(self@.cases[i as int], self@.cases[j]));
                        }
                    }
                }
                return Some(i);
            }
            i += 1;
        }
        None
    }

    pub fn document_pos(&self, id: i32) -> (r: Option<usize>)
        requires
            self.wf(),
        ensures
            (r matches Some(i) ==> self@.has_document(id) && i == self@.document_idx(id) && 0 <= i
                < self.documents@.len()),
            (r is None ==> !self@.has_document(id)),
    {
        let mut i: usize = 0;
        while i < self.documents.len()
            invariant
                0 <= i <= self.documents@.len(),
                self.wf(),
                forall|k: int| 0 <= k < i ==> (#[trigger] self@.documents[k]).id != id,
            decreases self.documents@.len() - i,
        {
            if self.documents[i].id == id {
                proof {
                    assert((#[trigger] self@.documents[i as int]).id == id);
                    let j = self@.document_idx(id);
                    if j != i as int {
                        if j < i as int {
                            assert((#[trigger] self@.documents[j]).id != (#[trigger] self@.documents[i as int]).id);
                        } else {
                            assert((#[trigger] self@.documents[i as int]).id != (#[trigger] self@.documents[j]).id);
                        }
                    }
                }
                return Some(i);
            }
            i += 1;
        }
        None
    }

    pub fn lawyer_pos(&self, id: i32) -> (r: Option<usize>)
        requires
            self.wf(),
        ensures
            (r matches Some(i) ==> self@.has_lawyer(id) && i == self@.lawyer_idx(id) && 0 <= i
                < self.lawyers@.len()),
            (r is None ==> !self@.has_lawyer(id)),
    {
        let mut i: usize = 0;
        while i < self.lawyers.len()
            invariant
                0 <= i <= self.lawyers@.len(),
                self.wf(),
                forall|k: int| 0 <= k < i ==> (#[trigger] self@.lawyers[k]).id != id,
            decreases self.lawyers@.len() - i,
        {
            if self.lawyers[i].id == id {
                proof {
                    assert((#[trigger] self@.lawyers[i as int]).id == id);
                    let j = self@.lawyer_idx(id);
                    if j != i as int {
                        if j < i as int {
                            assert(lawyer_pair_ok(self@.lawyers[j], self@.lawyers[i as int]));
                        } else {
                            assert(lawyer_pair_ok(self@.lawyers[i as int], self@.lawyers[j]));
                        }
                    }
                }
                return Some(i);
            }
            i += 1;
        }
        None
    }

    pub fn status_pos(&self, id: i32) -> (r: Option<usize>)
        requires
            self.wf(),
        ensures
            (r matches Some(i) ==> self@.has_status(id) && i == self@.status_idx(id) && 0 <= i
                < self.statuses@.len()),
            (r is None ==> !self@.has_status(id)),
    {
        let mut i: usize = 0;
        while i < self.statuses.len()
            invariant
                0 <= i <= self.statuses@.len(),
                self.wf(),
                forall|k: int| 0 <= k < i ==> (#[trigger] self@.statuses[k]).id != id,
            decreases self.statuses@.len() - i,
        {
            if self.statuses[i].id == id {
                proof {
                    assert((#[trigger] self@.statuses[i as int]).id == id);
                    let j = self@.status_idx(id);
                    if j != i as int {
                        if j < i as int {
                            assert((#[trigger] self@.statuses[j]).id != (#[trigger] self@.statuses[i as int]).id);
                        } else {
                            assert((#[trigger] self@.statuses[i as int]).id != (#[trigger] self@.statuses[j]).id);
                        }
                    }
                }
                return Some(i);
            }
            i += 1;
        }
        None
    }

    pub fn court_pos(&self, id: i32) -> (r: Option<usize>)
        requires
            self.wf(),
        ensures
            (r matches Some(i) ==> self@.has_court(id) && i == self@.court_idx(id) && 0 <= i
                < self.courts@.len()),
            (r is None ==> !self@.has_court(id)),
    {
        let mut i: usize = 0;
        while i < self.courts.len()
            invariant
                0 <= i <= self.courts@.len(),
                self.wf(),
                forall|k: int| 0 <= k < i ==> (#[trigger] self@.courts[k]).id != id,
            decreases self.courts@.len() - i,
        {
            if self.courts[i].id == id {
                proof {
                    assert((#[trigger] self@.courts[i as int]).id == id);
                    let j = self@.court_idx(id);
                    if j != i as int {
                        if j < i as int {
                            assert((#[trigger] self@.courts[j]).id != (#[trigger] self@.courts[i as int]).id);
                        } else {
                            assert((#[trigger] self@.courts[i as int]).id != (#[trigger] self@.courts[j]).id);
                        }
                    }
                }
                return Some(i);
            }
            i += 1;
        }
        None
    }

    pub fn category_pos(&self, id: i32) -> (r: Option<usize>)
        requires
            self.wf(),
        ensures
            (r matches Some(i) ==> self@.has_category(id) && i == self@.category_idx(id) && 0 <= i
                < self.categories@.len()),
            (r is None ==> !self@.has_category(id)),
    {
        let mut i: usize = 0;
        while i < self.categories.len()
            invariant
                0 <= i <= self.categories@.len(),
                self.wf(),
                forall|k: int| 0 <= k < i ==> (#[trigger] self@.categories[k]).id != id,
            decreases self.categories@.len() - i,
        {
            if self.categories[i].id == id {
                proof {
                    assert((#[trigger] self@.categories[i as int]).id == id);
                    let j = self@.category_idx(id);
                    if j != i as int {
                        if j < i as int {
                            assert((#[trigger] self@.categories[j]).id != (#[trigger] self@.categories[i as int]).id);
                        } else {
                            assert((#[trigger] self@.categories[i as int]).id != (#[trigger] self@.categories[j]).id);
                        }
                    }
                }
                return Some(i);
            }
            i += 1;
        }
        None
    }

    pub fn cpf_in_use(&self, cpf: &str) -> (r: bool)
        ensures
            r == self@.cpf_taken(cpf@),
    {
        let mut i: usize = 0;
        while i < self.clients.len()
            invariant
                0 <= i <= self.clients@.len(),
                forall|k: int|
                    0 <= k < i ==> cpf_of((#[trigger] self@.clients[k]).kind) != Some(cpf@),
            decreases self.clients@.len() - i,
        {
            let hit: bool = match &self.clients[i].kind {
                Some(ClientKind::Fisica(c)) => str_eq(c.as_str(), cpf),
                _ => false,
            };
            if hit {
                proof {
                    assert(cpf_of((#[trigger] self@.clients[i as int]).kind) == Some(cpf@));
                }
                return true;
            }
            proof {
                assert(cpf_of((#[trigger] self@.clients[i as int]).kind) != Some(cpf@));
            }
            i += 1;
        }
        false
    }

    pub fn cnpj_in_use(&self, cnpj: &str) -> (r: bool)
        ensures
            r == self@.cnpj_taken(cnpj@),
    {
        let mut i: usize = 0;
        while i < self.clients.len()
            invariant
                0 <= i <= self.clients@.len(),
                forall|k: int|
                    0 <= k < i ==> cnpj_of((#[trigger] self@.clients[k]).kind) != Some(cnpj@),
            decreases self.clients@.len() - i,
        {
            let hit: bool = match &self.clients[i].kind {
                Some(ClientKind::Juridica(c)) => str_eq(c.as_str(), cnpj),
                _ => false,
            };
            if hit {
                proof {
                    assert(cnpj_of((#[trigger] self@.clients[i as int]).kind) == Some(cnpj@));
                }
                return true;
            }
            proof {
                assert(cnpj_of((#[trigger] self@.clients[i as int]).kind) != Some(cnpj@));
            }
            i += 1;
        }
        false
    }

    pub fn cpf_in_use_other(&self, cpf: &str, id: i32) -> (r: bool)
        ensures
            r == self@.cpf_taken_other(cpf@, id),
    {
        let mut i: usize = 0;
        while i < self.clients.len()
            invariant
                0 <= i <= self.clients@.len(),
                forall|k: int|
                    0 <= k < i ==> !((#[trigger] self@.clients[k]).id != id && cpf_of(
                        self@.clients[k].kind,
                    ) == Some(cpf@)),
            decreases self.clients@.len() - i,
        {
            let hit: bool = if self.clients[i].id != id {
                match &self.clients[i].kind {
                    Some(ClientKind::Fisica(c)) => str_eq(c.as_str(), cpf),
                    _ => false,
                }
            } else {
                false
            };
            if hit {
                proof {
                    assert((#[trigger] self@.clients[i as int]).id != id && cpf_of(
                        self@.clients[i as int].kind,
                    ) == Some(cpf@));
                }
                return true;
            }
            proof {
                assert(!((#[trigger] self@.clients[i as int]).id != id && cpf_of(
                    self@.clients[i as int].kind,
                ) == Some(cpf@)));
            }
            i += 1;
        }
        false
    }

    pub fn cnpj_in_use_other(&self, cnpj: &str, id: i32) -> (r: bool)
        ensures
            r == self@.cnpj_taken_other(cnpj@, id),
    {
        let mut i: usize = 0;
        while i < self.clients.len()
            invariant
                0 <= i <= self.clients@.len(),
                forall|k: int|
                    0 <= k < i ==> !((#[trigger] self@.clients[k]).id != id && cnpj_of(
                        self@.clients[k].kind,
                    ) == Some(cnpj@)),
            decreases self.clients@.len() - i,
        {
            let hit: bool = if self.clients[i].id != id {
                match &self.clients[i].kind {
                    Some(ClientKind::Juridica(c)) => str_eq(c.as_str(), cnpj),
                    _ => false,
                }
            } else {
                false
            };
            if hit {
                proof {
                    assert((#[trigger] self@.clients[i as int]).id != id && cnpj_of(
                        self@.clients[i as int].kind,
                    ) == Some(cnpj@));
                }
                return true;
            }
            proof {
                assert(!((#[trigger] self@.clients[i as int]).id != id && cnpj_of(
                    self@.clients[i as int].kind,
                ) == Some(cnpj@)));
            }
            i += 1;
        }
        false
    }

    pub fn processo_in_use_other(&self, processo: &str, id: i32) -> (r: bool)
        ensures
            r == self@.processo_taken_other(processo@, id),
    {
        let mut i: usize = 0;
        while i < self.cases.len()
            invariant
                0 <= i <= self.cases@.len(),
                forall|k: int|
                    0 <= k < i ==> !((#[trigger] self@.cases[k]).id != id
                        && self@.cases[k].numero_processo == Some(processo@)),
            decreases self.cases@.len() - i,
        {
            let hit: bool = if self.cases[i].id != id {
                match &self.cases[i].numero_processo {
                    Some(p) => str_eq(p.as_str(), processo),
                    None => false,
                }
            } else {
                false
            };
            if hit {
                proof {
                    assert((#[trigger] self@.cases[i as int]).id != id
                        && self@.cases[i as int].numero_processo == Some(processo@));
                }
                return true;
            }
            proof {
                assert(!((#[trigger] self@.cases[i as int]).id != id
                    && self@.cases[i as int].numero_processo == Some(processo@)));
            }
            i += 1;
        }
        false
    }

    pub fn oab_in_use(&self, oab: &str) -> (r: bool)
        ensures
            r == self@.oab_taken(oab@),
    {
        let mut i: usize = 0;
        while i < self.lawyers.len()
            invariant
                0 <= i <= self.lawyers@.len(),
                forall|k: int| 0 <= k < i ==> (#[trigger] self@.lawyers[k]).oab != oab@,
            decreases self.lawyers@.len() - i,
        {
            if str_eq(self.lawyers[i].oab.as_str(), oab) {
                proof {
                    assert((#[trigger] self@.lawyers[i as int]).oab == oab@);
                }
                return true;
            }
            i += 1;
        }
        false
    }

    pub fn client_has_case(&self, id: i32) -> (r: bool)
        ensures
            r == self@.client_referenced(id),
    {
        let mut i: usize = 0;
        while i < self.cases.len()
            invariant
                0 <= i <= self.cases@.len(),
                forall|k: int| 0 <= k < i ==> (#[trigger] self@.cases[k]).id_cliente != id,
            decreases self.cases@.len() - i,
        {
            if self.cases[i].id_cliente == id {
                proof {
                    assert((#[trigger] self@.cases[i as int]).id_cliente == id);
                }
                return true;
            }
            i += 1;
        }
        false
    }

    pub fn case_has_document(&self, id: i32) -> (r: bool)
        ensures
            r == self@.case_referenced(id),
    {
        let mut i: usize = 0;
        while i < self.documents.len()
            invariant
                0 <= i <= self.documents@.len(),
                forall|k: int| 0 <= k < i ==> (#[trigger] self@.documents[k]).id_caso != id,
            decreases self.documents@.len() - i,
        {
            if self.documents[i].id_caso == id {
                proof {
                    assert((#[trigger] self@.documents[i as int]).id_caso == id);
                }
                return true;
            }
            i += 1;
        }
        false
    }
}

pub proof fn lemma_has_client_preserved(m0: DbModel, m1: DbModel)
    requires
        m0.clients.len() <= m1.clients.len(),
        forall|i: int| 0 <= i < m0.clients.len() ==> #[trigger] m1.clients[i] == m0.clients[i],
    ensures
        forall|id: i32| m0.has_client(id) ==> #[trigger] m1.has_client(id),
{
    assert forall|id: i32| m0.has_client(id) implies #[trigger] m1.has_client(id) by {
        let i = choose|i: int|
            0 <= i < m0.clients.len() && (#[trigger] m0.clients[i]).id == id;
        assert(m1.clients[i].id == id);
    }
}

pub proof fn lemma_has_lawyer_preserved(m0: DbModel, m1: DbModel)
    requires
        m0.lawyers.len() <= m1.lawyers.len(),
        forall|i: int| 0 <= i < m0.lawyers.len() ==> #[trigger] m1.lawyers[i] == m0.lawyers[i],
    ensures
        forall|id: i32| m0.has_lawyer(id) ==> #[trigger] m1.has_lawyer(id),
{
    assert forall|id: i32| m0.has_lawyer(id) implies #[trigger] m1.has_lawyer(id) by {
        let i = choose|i: int|
            0 <= i < m0.lawyers.len() && (#[trigger] m0.lawyers[i]).id == id;
        assert(m1.lawyers[i].id == id);
    }
}

pub proof fn lemma_has_status_preserved(m0: DbModel, m1: DbModel)
    requires
        m0.statuses.len() <= m1.statuses.len(),
        forall|i: int| 0 <= i < m0.statuses.len() ==> #[trigger] m1.statuses[i] == m0.statuses[i],
    ensures
        forall|id: i32| m0.has_status(id) ==> #[trigger] m1.has_status(id),
{
    assert forall|id: i32| m0.has_status(id) implies #[trigger] m1.has_status(id) by {
        let i = choose|i: int|
            0 <= i < m0.statuses.len() && (#[trigger] m0.statuses[i]).id == id;
        assert(m1.statuses[i].id == id);
    }
}

pub proof fn lemma_has_court_preserved(m0: DbModel, m1: DbModel)
    requires
        m0.courts.len() <= m1.courts.len(),
        forall|i: int| 0 <= i < m0.courts.len() ==> #[trigger] m1.courts[i] == m0.courts[i],
    ensures
        forall|id: i32| m0.has_court(id) ==> #[trigger] m1.has_court(id),
{
    assert forall|id: i32| m0.has_court(id) implies #[trigger] m1.has_court(id) by {
        let i = choose|i: int| 0 <= i < m0.courts.len() && (#[trigger] m0.courts[i]).id == id;
        assert(m1.courts[i].id == id);
    }
}

pub proof fn lemma_has_category_preserved(m0: DbModel, m1: DbModel)
    requires
        m0.categories.len() <= m1.categories.len(),
        forall|i: int|
            0 <= i < m0.categories.len() ==> #[trigger] m1.categories[i] == m0.categories[i],
    ensures
        forall|id: i32| m0.has_category(id) ==> #[trigger] m1.has_category(id),
{
    assert forall|id: i32| m0.has_category(id) implies #[trigger] m1.has_category(id) by {
        let i = choose|i: int|
            0 <= i < m0.categories.len() && (#[trigger] m0.categories[i]).id == id;
        assert(m1.categories[i].id == id);
    }
}

pub proof fn lemma_has_case_preserved(m0: DbModel, m1: DbModel)
    requires
        m0.cases.len() <= m1.cases.len(),
        forall|i: int| 0 <= i < m0.cases.len() ==> #[trigger] m1.cases[i] == m0.cases[i],
    ensures
        forall|id: i32| m0.has_case(id) ==> #[trigger] m1.has_case(id),
{
    assert forall|id: i32| m0.has_case(id) implies #[trigger] m1.has_case(id) by {
        let i = choose|i: int| 0 <= i < m0.cases.len() && (#[trigger] m0.cases[i]).id == id;
        assert(m1.cases[i].id == id);
    }
}

/// Extending tables (and touching nothing already there) keeps every
/// existence fact.
pub proof fn lemma_refs_preserved(m0: DbModel, m1: DbModel)
    requires
        m0.clients.len() <= m1.clients.len(),
        forall|i: int| 0 <= i < m0.clients.len() ==> #[trigger] m1.clients[i] == m0.clients[i],
        m0.lawyers.len() <= m1.lawyers.len(),
        forall|i: int| 0 <= i < m0.lawyers.len() ==> #[trigger] m1.lawyers[i] == m0.lawyers[i],
        m0.statuses.len() <= m1.statuses.len(),
        forall|i: int| 0 <= i < m0.statuses.len() ==> #[trigger] m1.statuses[i] == m0.statuses[i],
        m0.courts.len() <= m1.courts.len(),
        forall|i: int| 0 <= i < m0.courts.len() ==> #[trigger] m1.courts[i] == m0.courts[i],
        m0.categories.len() <= m1.categories.len(),
        forall|i: int|
            0 <= i < m0.categories.len() ==> #[trigger] m1.categories[i] == m0.categories[i],
        m0.cases.len() <= m1.cases.len(),
        forall|i: int| 0 <= i < m0.cases.len() ==> #[trigger] m1.cases[i] == m0.cases[i],
    ensures
        forall|id: i32| m0.has_client(id) ==> #[trigger] m1.has_client(id),
        forall|id: i32| m0.has_lawyer(id) ==> #[trigger] m1.has_lawyer(id),
        forall|id: i32| m0.has_status(id) ==> #[trigger] m1.has_status(id),
        forall|id: i32| m0.has_court(id) ==> #[trigger] m1.has_court(id),
        forall|id: i32| m0.has_category(id) ==> #[trigger] m1.has_category(id),
        forall|id: i32| m0.has_case(id) ==> #[trigger] m1.has_case(id),
{
    assert forall|id: i32| m0.has_client(id) implies #[trigger] m1.has_client(id) by {
        let i = choose|i: int|
            0 <= i < m0.clients.len() && (#[trigger] m0.clients[i]).id == id;
        assert(m1.clients[i].id == id);
    }
    assert forall|id: i32| m0.has_lawyer(id) implies #[trigger] m1.has_lawyer(id) by {
        let i = choose|i: int|
            0 <= i < m0.lawyers.len() && (#[trigger] m0.lawyers[i]).id == id;
        assert(m1.lawyers[i].id == id);
    }
    assert forall|id: i32| m0.has_status(id) implies #[trigger] m1.has_status(id) by {
        let i = choose|i: int|
            0 <= i < m0.statuses.len() && (#[trigger] m0.statuses[i]).id == id;
        assert(m1.statuses[i].id == id);
    }
    assert forall|id: i32| m0.has_court(id) implies #[trigger] m1.has_court(id) by {
        let i = choose|i: int| 0 <= i < m0.courts.len() && (#[trigger] m0.courts[i]).id == id;
        assert(m1.courts[i].id == id);
    }
    assert forall|id: i32| m0.has_category(id) implies #[trigger] m1.has_category(id) by {
        let i = choose|i: int|
            0 <= i < m0.categories.len() && (#[trigger] m0.categories[i]).id == id;
        assert(m1.categories[i].id == id);
    }
    assert forall|id: i32| m0.has_case(id) implies #[trigger] m1.has_case(id) by {
        let i = choose|i: int| 0 <= i < m0.cases.len() && (#[trigger] m0.cases[i]).id == id;
        assert(m1.cases[i].id == id);
    }
}

/// Tables other than the referenced ones did not lose rows either, so every
/// case still has its references and every document its case.
pub proof fn lemma_wf_rows_preserved(m0: DbModel, m1: DbModel)
    requires
        m0.wf(),
        m1.clients.len() <= m0.clients.len() + 1,
        forall|i: int| 0 <= i < m0.clients.len() ==> #[trigger] m1.clients[i] == m0.clients[i],
        m0.clients.len() <= m1.clients.len(),
        m1.lawyers.len() <= m0.lawyers.len() + 1,
        forall|i: int| 0 <= i < m0.lawyers.len() ==> #[trigger] m1.lawyers[i] == m0.lawyers[i],
        m0.lawyers.len() <= m1.lawyers.len(),
        m1.statuses.len() <= m0.statuses.len() + 1,
        forall|i: int| 0 <= i < m0.statuses.len() ==> #[trigger] m1.statuses[i] == m0.statuses[i],
        m0.statuses.len() <= m1.statuses.len(),
        m1.courts.len() <= m0.courts.len() + 1,
        forall|i: int| 0 <= i < m0.courts.len() ==> #[trigger] m1.courts[i] == m0.courts[i],
        m0.courts.len() <= m1.courts.len(),
        m1.categories.len() <= m0.categories.len() + 1,
        forall|i: int|
            0 <= i < m0.categories.len() ==> #[trigger] m1.categories[i] == m0.categories[i],
        m0.categories.len() <= m1.categories.len(),
        m1.cases == m0.cases,
        m1.documents == m0.documents,
    ensures
        forall|i: int| 0 <= i < m1.cases.len() ==> m1.case_refs_ok(#[trigger] m1.cases[i]),
        forall|i: int|
            0 <= i < m1.documents.len() ==> m1.has_case((#[trigger] m1.documents[i]).id_caso),
{
    lemma_refs_preserved(m0, m1);
    assert forall|i: int| 0 <= i < m1.cases.len() implies m1.case_refs_ok(
        #[trigger] m1.cases[i],
    ) by {
        assert(m0.case_refs_ok(m0.cases[i]));
    }
    assert forall|i: int| 0 <= i < m1.documents.len() implies m1.has_case(
        (#[trigger] m1.documents[i]).id_caso,
    ) by {
        assert(m0.has_case(m0.documents[i].id_caso));
    }
}

pub open spec fn add_lawyer_spec(
    m: DbModel,
    nome: Seq<char>,
    oab: Seq<char>,
    telefone: Option<Seq<char>>,
    email: Option<Seq<char>>,
    especialidade: Option<Seq<char>>,
) -> (DbModel, Result<i32, crate::domain::GatewayError>) {
    if m.oab_taken(oab) {
        (m, Err(crate::domain::GatewayError::ConstraintViolation))
    } else {
        (
            DbModel {
                lawyers: m.lawyers.push(
                    LawyerModel { id: m.next_lawyer_id, nome, oab, telefone, email, especialidade },
                ),
                next_lawyer_id: (m.next_lawyer_id + 1) as i32,
                ..m
            },
            Ok(m.next_lawyer_id),
        )
    }
}

pub open spec fn add_status_spec(m: DbModel, descricao: Seq<char>) -> (DbModel, i32) {
    (
        DbModel {
            statuses: m.statuses.push(StatusModel { id: m.next_status_id, descricao }),
            next_status_id: (m.next_status_id + 1) as i32,
            ..m
        },
        m.next_status_id,
    )
}

pub open spec fn add_court_spec(m: DbModel, nome_vara: Seq<char>) -> (DbModel, i32) {
    (
        DbModel {
            courts: m.courts.push(CourtModel { id: m.next_court_id, nome_vara }),
            next_court_id: (m.next_court_id + 1) as i32,
            ..m
        },
        m.next_court_id,
    )
}

pub open spec fn add_category_spec(m: DbModel, descricao: Seq<char>) -> (DbModel, i32) {
    (
        DbModel {
            categories: m.categories.push(CategoryModel { id: m.next_category_id, descricao }),
            next_category_id: (m.next_category_id + 1) as i32,
            ..m
        },
        m.next_category_id,
    )
}

impl Database {
    /// Register a lawyer; the bar number must be new, as its unique
    /// constraint demands.
    pub fn add_lawyer(
        &mut self,
        nome: String,
        oab: String,
        telefone: Option<String>,
        email: Option<String>,
        especialidade: Option<String>,
    ) -> (r: Result<i32, crate::domain::GatewayError>)
        requires
            old(self).wf(),
            old(self).next_lawyer_id < i32::MAX,
        ensures
            final(self).wf(),
            final(self)@ == add_lawyer_spec(
                old(self)@,
                nome@,
                oab@,
                crate::domain::opt_view(telefone),
                crate::domain::opt_view(email),
                crate::domain::opt_view(especialidade),
            ).0,
            r == add_lawyer_spec(
                old(self)@,
                nome@,
                oab@,
                crate::domain::opt_view(telefone),
                crate::domain::opt_view(email),
                crate::domain::opt_view(especialidade),
            ).1,
    {
        if self.oab_in_use(oab.as_str()) {
            return Err(crate::domain::GatewayError::ConstraintViolation);
        }
        let id = self.next_lawyer_id;
        self.lawyers.push(Lawyer { id, nome, oab, telefone, email, especialidade });
        self.next_lawyer_id = self.next_lawyer_id + 1;
        proof {
            let m0 = old(self)@;
            let m1 = self@;
            assert(m1.lawyers =~= m0.lawyers.push(m1.lawyers.last()));
            assert(m1 =~= add_lawyer_spec(
                m0,
                m1.lawyers.last().nome,
                m1.lawyers.last().oab,
                m1.lawyers.last().telefone,
                m1.lawyers.last().email,
                m1.lawyers.last().especialidade,
            ).0);
            lemma_wf_rows_preserved(m0, m1);
            assert forall|i: int| 0 <= i < m1.lawyers.len() implies 1 <= (
            #[trigger] m1.lawyers[i]).id < m1.next_lawyer_id by {
                if i < m0.lawyers.len() {
                    assert(m1.lawyers[i] == m0.lawyers[i]);
                }
            }
            assert forall|p: int, q: int| 0 <= p < q < m1.lawyers.len() implies lawyer_pair_ok(
                #[trigger] m1.lawyers[p],
                #[trigger] m1.lawyers[q],
            ) by {
                assert(m1.lawyers[p] == m0.lawyers[p]);
                if q < m0.lawyers.len() {
                    assert(m1.lawyers[q] == m0.lawyers[q]);
                } else {
                    assert(m0.lawyers[p].id < m0.next_lawyer_id);
                }
            }
        }
        Ok(id)
    }

    /// Register a status row of the lookup table.
    pub fn add_status(&mut self, descricao: String) -> (r: i32)
        requires
            old(self).wf(),
            old(self).next_status_id < i32::MAX,
        ensures
            final(self).wf(),
            final(self)@ == add_status_spec(old(self)@, descricao@).0,
            r == add_status_spec(old(self)@, descricao@).1,
    {
        let id = self.next_status_id;
        self.statuses.push(StatusRow { id, descricao });
        self.next_status_id = self.next_status_id + 1;
        proof {
            let m0 = old(self)@;
            let m1 = self@;
            assert(m1.statuses =~= m0.statuses.push(m1.statuses.last()));
            assert forall|i: int| 0 <= i < m1.statuses.len() implies 1 <= (
            #[trigger] m1.statuses[i]).id < m1.next_status_id by {
                if i < m0.statuses.len() {
                    assert(m1.statuses[i] == m0.statuses[i]);
                }
            }
            assert forall|p: int, q: int| 0 <= p < q < m1.statuses.len() implies (
            #[trigger] m1.statuses[p]).id != (#[trigger] m1.statuses[q]).id by {
                assert(m1.statuses[p] == m0.statuses[p]);
                if q < m0.statuses.len() {
                    assert(m1.statuses[q] == m0.statuses[q]);
                } else {
                    assert(m0.statuses[p].id < m0.next_status_id);
                }
            }
            assert(m1 =~= add_status_spec(m0, m1.statuses.last().descricao).0);
            lemma_wf_rows_preserved(m0, m1);
        }
        id
    }

    /// Register a judicial court of the lookup table.
    pub fn add_court(&mut self, nome_vara: String) -> (r: i32)
        requires
            old(self).wf(),
            old(self).next_court_id < i32::MAX,
        ensures
            final(self).wf(),
            final(self)@ == add_court_spec(old(self)@, nome_vara@).0,
            r == add_court_spec(old(self)@, nome_vara@).1,
    {
        let id = self.next_court_id;
        self.courts.push(Court { id, nome_vara });
        self.next_court_id = self.next_court_id + 1;
        proof {
            let m0 = old(self)@;
            let m1 = self@;
            assert(m1.courts =~= m0.courts.push(m1.courts.last()));
            assert forall|i: int| 0 <= i < m1.courts.len() implies 1 <= (
            #[trigger] m1.courts[i]).id < m1.next_court_id by {
                if i < m0.courts.len() {
                    assert(m1.courts[i] == m0.courts[i]);
                }
            }
            assert forall|p: int, q: int| 0 <= p < q < m1.courts.len() implies (
            #[trigger] m1.courts[p]).id != (#[trigger] m1.courts[q]).id by {
                assert(m1.courts[p] == m0.courts[p]);
                if q < m0.courts.len() {
                    assert(m1.courts[q] == m0.courts[q]);
                } else {
                    assert(m0.courts[p].id < m0.next_court_id);
                }
            }
            assert(m1 =~= add_court_spec(m0, m1.courts.last().nome_vara).0);
            lemma_wf_rows_preserved(m0, m1);
        }
        id
    }

    /// Register a case category of the lookup table.
    pub fn add_category(&mut self, descricao: String) -> (r: i32)
        requires
            old(self).wf(),
            old(self).next_category_id < i32::MAX,
        ensures
            final(self).wf(),
            final(self)@ == add_category_spec(old(self)@, descricao@).0,
            r == add_category_spec(old(self)@, descricao@).1,
    {
        let id = self.next_category_id;
        self.categories.push(Category { id, descricao });
        self.next_category_id = self.next_category_id + 1;
        proof {
            let m0 = old(self)@;
            let m1 = self@;
            assert(m1.categories =~= m0.categories.push(m1.categories.last()));
            assert forall|i: int| 0 <= i < m1.categories.len() implies 1 <= (
            #[trigger] m1.categories[i]).id < m1.next_category_id by {
                if i < m0.categories.len() {
                    assert(m1.categories[i] == m0.categories[i]);
                }
            }
            assert forall|p: int, q: int| 0 <= p < q < m1.categories.len() implies (
            #[trigger] m1.categories[p]).id != (#[trigger] m1.categories[q]).id by {
                assert(m1.categories[p] == m0.categories[p]);
                if q < m0.categories.len() {
                    assert(m1.categories[q] == m0.categories[q]);
                } else {
                    assert(m0.categories[p].id < m0.next_category_id);
                }
            }
            assert(m1 =~= add_category_spec(m0, m1.categories.last().descricao).0);
            lemma_wf_rows_preserved(m0, m1);
        }
        id
    }
}

} // verus!
