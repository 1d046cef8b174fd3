//! The case gateway: every foreign key is probed before the write runs, the
//! required open date is parsed strictly, the optional close date is
//! silently dropped when malformed, and a mutation that matches no row is
//! `NotFound`, never a silent success.

use vstd::prelude::*;
use crate::dates::{Date, parse_date, parse_date_spec};
use crate::domain::{
    CaseModel, CasePayload, CasePayloadModel, CaseRec, CaseUpdateModel, CaseUpdatePayload,
    clone_opt_string, Field, GatewayError,
};
use crate::store::{
    case_pair_ok, Database, DbModel, lemma_has_case_preserved, lemma_has_category_preserved,
    lemma_has_client_preserved, lemma_has_court_preserved, lemma_has_lawyer_preserved,
    lemma_has_status_preserved,
};

verus! {

/// The close date of a payload: parsed where well-formed, absent otherwise —
/// the documented leniency for optional date fields.
pub open spec fn close_date_of(s: Option<Seq<char>>) -> Option<Date> {
    match s {
        Some(t) => parse_date_spec(t),
        None => None,
    }
}

/// The case row that a create inserts.
pub open spec fn new_case_model(id: i32, p: CasePayloadModel, da: Date) -> CaseModel {
    CaseModel {
        id: id,
        id_cliente: p.id_cliente,
        id_advogado: p.id_advogado,
        id_status: p.id_status,
        id_vara_judicial: p.id_vara_judicial,
        id_categoria_caso: p.id_categoria_caso,
        descricao: p.descricao,
        numero_processo: p.numero_processo,
        data_abertura: da,
        data_fechamento: close_date_of(p.data_fechamento),
    }
}

/// What a case create does: strict open-date parse, one existence probe per
/// foreign key, then the insert.
pub open spec fn create_case_spec(m: DbModel, p: CasePayloadModel) -> (
    DbModel,
    Result<i32, GatewayError>,
) {
    match parse_date_spec(p.data_abertura) {
        None => (m, Err(GatewayError::InvalidDate(Field::DataAbertura))),
        Some(da) => {
            if !m.has_client(p.id_cliente) {
                (m, Err(GatewayError::ReferencedEntityMissing(Field::IdCliente)))
            } else if !m.has_lawyer(p.id_advogado) {
                (m, Err(GatewayError::ReferencedEntityMissing(Field::IdAdvogado)))
            } else if !m.has_status(p.id_status) {
                (m, Err(GatewayError::ReferencedEntityMissing(Field::IdStatus)))
            } else if (p.id_vara_judicial matches Some(v) && !m.has_court(v)) {
                (m, Err(GatewayError::ReferencedEntityMissing(Field::IdVaraJudicial)))
            } else if (p.id_categoria_caso matches Some(v) && !m.has_category(v)) {
                (m, Err(GatewayError::ReferencedEntityMissing(Field::IdCategoriaCaso)))
            } else if (p.numero_processo matches Some(n) && m.processo_taken(n)) {
                (m, Err(GatewayError::ConstraintViolation))
            } else {
                (
                    DbModel {
                        cases: m.cases.push(new_case_model(m.next_case_id, p, da)),
                        next_case_id: (m.next_case_id + 1) as i32,
                        ..m
                    },
                    Ok(m.next_case_id),
                )
            }
        },
    }
}

/// What a case update does: the same probes, then a full-record replace of
/// the row with that id.
pub open spec fn update_case_spec(m: DbModel, p: CaseUpdateModel) -> (
    DbModel,
    Result<(), GatewayError>,
) {
    match parse_date_spec(p.data_abertura) {
        None => (m, Err(GatewayError::InvalidDate(Field::DataAbertura))),
        Some(da) => {
            if !m.has_client(p.id_cliente) {
                (m, Err(GatewayError::ReferencedEntityMissing(Field::IdCliente)))
            } else if !m.has_lawyer(p.id_advogado) {
                (m, Err(GatewayError::ReferencedEntityMissing(Field::IdAdvogado)))
            } else if !m.has_status(p.id_status) {
                (m, Err(GatewayError::ReferencedEntityMissing(Field::IdStatus)))
            } else if (p.id_vara_judicial matches Some(v) && !m.has_court(v)) {
                (m, Err(GatewayError::ReferencedEntityMissing(Field::IdVaraJudicial)))
            } else if (p.id_categoria_caso matches Some(v) && !m.has_category(v)) {
                (m, Err(GatewayError::ReferencedEntityMissing(Field::IdCategoriaCaso)))
            } else if !m.has_case(p.id_caso) {
                (m, Err(GatewayError::NotFound))
            } else if (p.numero_processo matches Some(n) && m.processo_taken_other(n, p.id_caso)) {
                (m, Err(GatewayError::ConstraintViolation))
            } else {
                (
                    DbModel {
                        cases: m.cases.update(
                            m.case_idx(p.id_caso),
                            CaseModel {
                                id: p.id_caso,
                                id_cliente: p.id_cliente,
                                id_advogado: p.id_advogado,
                                id_status: p.id_status,
                                id_vara_judicial: p.id_vara_judicial,
                                id_categoria_caso: p.id_categoria_caso,
                                descricao: p.descricao,
                                numero_processo: p.numero_processo,
                                data_abertura: da,
                                data_fechamento: close_date_of(p.data_fechamento),
                            },
                        ),
                        ..m
                    },
                    Ok(()),
                )
            }
        },
    }
}

/// What a case delete does: the row must exist and no document may still
/// reference it.
pub open spec fn delete_case_spec(m: DbModel, id: i32) -> (DbModel, Result<(), GatewayError>) {
    if !m.has_case(id) {
        (m, Err(GatewayError::NotFound))
    } else if m.case_referenced(id) {
        (m, Err(GatewayError::ConstraintViolation))
    } else {
        (DbModel { cases: m.cases.remove(m.case_idx(id)), ..m }, Ok(()))
    }
}

proof fn lemma_wf_after_case_push(m0: DbModel, m1: DbModel, c: CaseModel)
    requires
        m0.wf(),
        m0.next_case_id < i32::MAX,
        c.id == m0.next_case_id,
        c.data_abertura.wf(),
        (c.data_fechamento matches Some(d) ==> d.wf()),
        m0.case_refs_ok(c),
        (c.numero_processo matches Some(n) ==> !m0.processo_taken(n)),
        m1 == (DbModel {
            cases: m0.cases.push(c),
            next_case_id: (m0.next_case_id + 1) as i32,
            ..m0
        }),
    ensures
        m1.wf(),
{
    lemma_has_client_preserved(m0, m1);
    lemma_has_lawyer_preserved(m0, m1);
    lemma_has_status_preserved(m0, m1);
    lemma_has_court_preserved(m0, m1);
    lemma_has_category_preserved(m0, m1);
    assert forall|i: int| 0 <= i < m0.cases.len() implies #[trigger] m1.cases[i] == m0.cases[i] by {}
    lemma_has_case_preserved(m0, m1);
    assert forall|i: int| 0 <= i < m1.cases.len() implies 1 <= (#[trigger] m1.cases[i]).id
        < m1.next_case_id by {
        if i < m0.cases.len() {
            assert(m1.cases[i] == m0.cases[i]);
        }
    }
    assert forall|p: int, q: int| 0 <= p < q < m1.cases.len() implies case_pair_ok(
        #[trigger] m1.cases[p],
        #[trigger] m1.cases[q],
    ) by {
        assert(m1.cases[p] == m0.cases[p]);
        if q < m0.cases.len() {
            assert(m1.cases[q] == m0.cases[q]);
        } else {
            assert(m1.cases[q] == c);
            assert(m0.cases[p].id < m0.next_case_id);
            match m0.cases[p].numero_processo {
                Some(n) => {
                    assert(m0.cases[p].numero_processo != c.numero_processo);
                },
                None => {},
            }
        }
    }
    assert forall|i: int| 0 <= i < m1.cases.len() implies m1.case_refs_ok(
        #[trigger] m1.cases[i],
    ) by {
        if i < m0.cases.len() {
            assert(m1.cases[i] == m0.cases[i]);
            assert(m0.case_refs_ok(m0.cases[i]));
        } else {
            assert(m1.cases[i] == c);
        }
    }
    assert forall|i: int| 0 <= i < m1.cases.len() implies (#[trigger] m1.cases[i]).data_abertura.wf()
        && (m1.cases[i].data_fechamento matches Some(d) ==> d.wf()) by {
        if i < m0.cases.len() {
            assert(m1.cases[i] == m0.cases[i]);
        }
    }
    assert forall|i: int| 0 <= i < m1.documents.len() implies m1.has_case(
        (#[trigger] m1.documents[i]).id_caso,
    ) by {
        assert(m0.has_case(m0.documents[i].id_caso));
    }
}

proof fn lemma_wf_after_case_update(m0: DbModel, m1: DbModel, id: i32, i: int, c: CaseModel)
    requires
        m0.wf(),
        0 <= i < m0.cases.len(),
        m0.cases[i].id == id,
        c.id == id,
        c.data_abertura.wf(),
        (c.data_fechamento matches Some(d) ==> d.wf()),
        m0.case_refs_ok(c),
        (c.numero_processo matches Some(n) ==> !m0.processo_taken_other(n, id)),
        m1 == (DbModel { cases: m0.cases.update(i, c), ..m0 }),
    ensures
        m1.wf(),
{
    lemma_has_client_preserved(m0, m1);
    lemma_has_lawyer_preserved(m0, m1);
    lemma_has_status_preserved(m0, m1);
    lemma_has_court_preserved(m0, m1);
    lemma_has_category_preserved(m0, m1);
    assert forall|k: int| 0 <= k < m1.cases.len() implies 1 <= (#[trigger] m1.cases[k]).id
        < m1.next_case_id by {
        if k != i {
            assert(m1.cases[k] == m0.cases[k]);
        }
    }
    assert forall|p: int, q: int| 0 <= p < q < m1.cases.len() implies case_pair_ok(
        #[trigger] m1.cases[p],
        #[trigger] m1.cases[q],
    ) by {
        assert(case_pair_ok(m0.cases[p], m0.cases[q]));
        if p != i && q != i {
            assert(m1.cases[p] == m0.cases[p]);
            assert(m1.cases[q] == m0.cases[q]);
        } else if p == i {
            assert(m1.cases[q] == m0.cases[q]);
            assert(m0.cases[q].id != id);
            match c.numero_processo {
                Some(n) => {
                    assert(m0.cases[q].numero_processo != Some(n));
                },
                None => {},
            }
        } else {
            assert(m1.cases[p] == m0.cases[p]);
            assert(m0.cases[p].id != id);
            match c.numero_processo {
                Some(n) => {
                    assert(m0.cases[p].numero_processo != Some(n));
                },
                None => {},
            }
        }
    }
    assert forall|k: int| 0 <= k < m1.cases.len() implies m1.case_refs_ok(
        #[trigger] m1.cases[k],
    ) by {
        if k != i {
            assert(m1.cases[k] == m0.cases[k]);
            assert(m0.case_refs_ok(m0.cases[k]));
        } else {
            assert(m1.cases[k] == c);
        }
    }
    assert forall|k: int| 0 <= k < m1.cases.len() implies (#[trigger] m1.cases[k]).data_abertura.wf()
        && (m1.cases[k].data_fechamento matches Some(d) ==> d.wf()) by {
        if k != i {
            assert(m1.cases[k] == m0.cases[k]);
        }
    }
    assert forall|k: int| 0 <= k < m1.documents.len() implies m1.has_case(
        (#[trigger] m1.documents[k]).id_caso,
    ) by {
        let w = choose|w: int|
            0 <= w < m0.cases.len() && (#[trigger] m0.cases[w]).id == m0.documents[k].id_caso;
        if w == i {
            assert((#[trigger] m1.cases[i]).id == m0.documents[k].id_caso);
        } else {
            assert((#[trigger] m1.cases[w]).id == m0.documents[k].id_caso);
        }
    }
}

proof fn lemma_wf_after_case_remove(m0: DbModel, m1: DbModel, id: i32, i: int)
    requires
        m0.wf(),
        0 <= i < m0.cases.len(),
        m0.cases[i].id == id,
        !m0.case_referenced(id),
        m1 == (DbModel { cases: m0.cases.remove(i), ..m0 }),
    ensures
        m1.wf(),
{
    lemma_has_client_preserved(m0, m1);
    lemma_has_lawyer_preserved(m0, m1);
    lemma_has_status_preserved(m0, m1);
    lemma_has_court_preserved(m0, m1);
    lemma_has_category_preserved(m0, m1);
    assert forall|k: int| 0 <= k < m1.cases.len() implies 1 <= (#[trigger] m1.cases[k]).id
        < m1.next_case_id && m1.case_refs_ok(m1.cases[k]) && m1.cases[k].data_abertura.wf() && (
    m1.cases[k].data_fechamento matches Some(d) ==> d.wf()) by {
        let k0: int = if k < i {
            k
        } else {
            k + 1
        };
        assert(m1.cases[k] == m0.cases[k0]);
        assert(m0.case_refs_ok(m0.cases[k0]));
    }
    assert forall|p: int, q: int| 0 <= p < q < m1.cases.len() implies case_pair_ok(
        #[trigger] m1.cases[p],
        #[trigger] m1.cases[q],
    ) by {
        let p0: int = if p < i {
            p
        } else {
            p + 1
        };
        let q0: int = if q < i {
            q
        } else {
            q + 1
        };
        assert(m1.cases[p] == m0.cases[p0]);
        assert(m1.cases[q] == m0.cases[q0]);
        assert(case_pair_ok(m0.cases[p0], m0.cases[q0]));
    }
    assert forall|k: int| 0 <= k < m1.documents.len() implies m1.has_case(
        (#[trigger] m1.documents[k]).id_caso,
    ) by {
        let d = m0.documents[k];
        assert(m1.documents[k] == d);
        assert(m0.has_case(d.id_caso));
        assert(d.id_caso != id);
        let w = choose|w: int| 0 <= w < m0.cases.len() && (#[trigger] m0.cases[w]).id == d.id_caso;
        if w < i {
            assert(m1.cases[w] == m0.cases[w]);
            assert(m1.has_case(d.id_caso));
        } else {
            assert(w != i);
            assert(m1.cases[w - 1] == m0.cases[w]);
            assert(m1.has_case(d.id_caso));
        }
    }
}

impl Database {
    /// Create a case from its JSON payload. Succeeds exactly when the open
    /// date parses, every referenced row exists, and the external process
    /// number is new.
    pub fn create_case(&mut self, p: &CasePayload) -> (r: Result<i32, GatewayError>)
        requires
            old(self).wf(),
            old(self).next_case_id < i32::MAX,
        ensures
            final(self).wf(),
            final(self)@ == create_case_spec(old(self)@, p@).0,
            r == create_case_spec(old(self)@, p@).1,
    {
        let da = match parse_date(p.data_abertura.as_str()) {
            Some(d) => d,
            None => {
                return Err(GatewayError::InvalidDate(Field::DataAbertura));
            },
        };
        let df: Option<Date> = match &p.data_fechamento {
            Some(s) => parse_date(s.as_str()),
            None => None,
        };
        if !self.has_client(p.id_cliente) {
            return Err(GatewayError::ReferencedEntityMissing(Field::IdCliente));
        }
        if !self.has_lawyer(p.id_advogado) {
            return Err(GatewayError::ReferencedEntityMissing(Field::IdAdvogado));
        }
        if !self.has_status(p.id_status) {
            return Err(GatewayError::ReferencedEntityMissing(Field::IdStatus));
        }
        match p.id_vara_judicial {
            Some(v) => {
                if !self.has_court(v) {
                    return Err(GatewayError::ReferencedEntityMissing(Field::IdVaraJudicial));
                }
            },
            None => {},
        }
        match p.id_categoria_caso {
            Some(v) => {
                if !self.has_category(v) {
                    return Err(GatewayError::ReferencedEntityMissing(Field::IdCategoriaCaso));
                }
            },
            None => {},
        }
        let numero = clone_opt_string(&p.numero_processo);
        match &numero {
            Some(n) => {
                if self.processo_in_use_other(n.as_str(), 0) {
                    proof {
                        assert(old(self)@.processo_taken(n@));
                    }
                    return Err(GatewayError::ConstraintViolation);
                }
                proof {
                    if old(self)@.processo_taken(n@) {
                        let w = choose|w: int|
                            0 <= w < old(self)@.cases.len() && (#[trigger] old(
                                self,
                            )@.cases[w]).numero_processo == Some(n@);
                        assert(old(self)@.cases[w].id != 0);
                        assert(old(self)@.processo_taken_other(n@, 0));
                        assert(false);
                    }
                }
            },
            None => {},
        }
        let id = self.next_case_id;
        self.cases.push(
            CaseRec {
                id,
                id_cliente: p.id_cliente,
                id_advogado: p.id_advogado,
                id_status: p.id_status,
                id_vara_judicial: p.id_vara_judicial,
                id_categoria_caso: p.id_categoria_caso,
                descricao: clone_opt_string(&p.descricao),
                numero_processo: numero,
                data_abertura: da,
                data_fechamento: df,
            },
        );
        self.next_case_id = self.next_case_id + 1;
        proof {
            let m0 = old(self)@;
            let m1 = self@;
            let c = m1.cases.last();
            assert(m1.cases =~= m0.cases.push(c));
            assert(c =~= new_case_model(m0.next_case_id, p@, da));
            assert(m1 =~= create_case_spec(m0, p@).0);
            lemma_wf_after_case_push(m0, m1, c);
        }
        Ok(id)
    }

    /// Replace the case with the id in the payload, field by field.
    pub fn update_case(&mut self, p: &CaseUpdatePayload) -> (r: Result<(), GatewayError>)
        requires
            old(self).wf(),
        ensures
            final(self).wf(),
            final(self)@ == update_case_spec(old(self)@, p@).0,
            r == update_case_spec(old(self)@, p@).1,
    {
        let da = match parse_date(p.data_abertura.as_str()) {
            Some(d) => d,
            None => {
                return Err(GatewayError::InvalidDate(Field::DataAbertura));
            },
        };
        let df: Option<Date> = match &p.data_fechamento {
            Some(s) => parse_date(s.as_str()),
            None => None,
        };
        if !self.has_client(p.id_cliente) {
            return Err(GatewayError::ReferencedEntityMissing(Field::IdCliente));
        }
        if !self.has_lawyer(p.id_advogado) {
            return Err(GatewayError::ReferencedEntityMissing(Field::IdAdvogado));
        }
        if !self.has_status(p.id_status) {
            return Err(GatewayError::ReferencedEntityMissing(Field::IdStatus));
        }
        match p.id_vara_judicial {
            Some(v) => {
                if !self.has_court(v) {
                    return Err(GatewayError::ReferencedEntityMissing(Field::IdVaraJudicial));
                }
            },
            None => {},
        }
        match p.id_categoria_caso {
            Some(v) => {
                if !self.has_category(v) {
                    return Err(GatewayError::ReferencedEntityMissing(Field::IdCategoriaCaso));
                }
            },
            None => {},
        }
        let i = match self.case_pos(p.id_caso) {
            Some(i) => i,
            None => {
                return Err(GatewayError::NotFound);
            },
        };
        let numero = clone_opt_string(&p.numero_processo);
        match &numero {
            Some(n) => {
                if self.processo_in_use_other(n.as_str(), p.id_caso) {
                    return Err(GatewayError::ConstraintViolation);
                }
            },
            None => {},
        }
        let ghost m0 = self@;
        let newc = CaseRec {
            id: p.id_caso,
            id_cliente: p.id_cliente,
            id_advogado: p.id_advogado,
            id_status: p.id_status,
            id_vara_judicial: p.id_vara_judicial,
            id_categoria_caso: p.id_categoria_caso,
            descricao: clone_opt_string(&p.descricao),
            numero_processo: numero,
            data_abertura: da,
            data_fechamento: df,
        };
        self.cases.remove(i);
        self.cases.insert(i, newc);
        proof {
            let m1 = self@;
            let c = m1.cases[i as int];
            assert(m1.cases =~= m0.cases.update(i as int, c));
            assert(m1 =~= update_case_spec(m0, p@).0);
            lemma_wf_after_case_update(m0, m1, p.id_caso, i as int, c);
        }
        Ok(())
    }

    /// Delete a case by id, or nothing.
    pub fn delete_case(&mut self, id: i32) -> (r: Result<(), GatewayError>)
        requires
            old(self).wf(),
        ensures
            final(self).wf(),
            final(self)@ == delete_case_spec(old(self)@, id).0,
            r == delete_case_spec(old(self)@, id).1,
    {
        let i = match self.case_pos(id) {
            Some(i) => i,
            None => {
                return Err(GatewayError::NotFound);
            },
        };
        if self.case_has_document(id) {
            return Err(GatewayError::ConstraintViolation);
        }
        let ghost m0 = self@;
        self.cases.remove(i);
        proof {
            let m1 = self@;
            assert(m1.cases =~= m0.cases.remove(i as int));
            assert(m1 =~= delete_case_spec(m0, id).0);
            lemma_wf_after_case_remove(m0, m1, id, i as int);
        }
        Ok(())
    }
}

} // verus!
