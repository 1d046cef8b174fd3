//! The client gateway: validated, all-or-nothing writes on the client table
//! and its discriminated subtype. A rejected request leaves the store
//! exactly as it was — the model counterpart of rolling the transaction
//! back.

use vstd::prelude::*;
use crate::codec::Params;
use crate::dates::Date;
use crate::domain::{
    Client, ClientKind, ClientKindModel, ClientModel, Field, GatewayError, opt_kind_view,
};
use crate::store::{Database, DbModel, client_pair_ok, cnpj_of, cpf_of};
use crate::text::{parse_i32, parse_i32_spec, str_eq};

verus! {

/// The sentinel that replaces an absent optional text field.
pub open spec fn sentinel_text() -> Seq<char> {
    "Nao identificado"@
}

pub fn sentinel_string() -> (r: String)
    ensures
        r@ == sentinel_text(),
{
    String::from_str("Nao identificado")
}

/// A parameter, or the sentinel where it is absent.
pub open spec fn param_or_sentinel(p: Map<Seq<char>, Seq<char>>, k: Seq<char>) -> Seq<char> {
    if p.contains_key(k) {
        p[k]
    } else {
        sentinel_text()
    }
}

/// The client row that a create inserts, before its id is chosen.
pub open spec fn new_client_model(
    id: i32,
    p: Map<Seq<char>, Seq<char>>,
    today: Date,
    kind: Option<ClientKindModel>,
) -> ClientModel {
    ClientModel {
        id: id,
        nome: p["nome"@],
        email: Some(p["email"@]),
        telefone: Some(param_or_sentinel(p, "telefone"@)),
        endereco: Some(param_or_sentinel(p, "endereco"@)),
        data_cadastro: Some(today),
        kind: kind,
    }
}

/// What a client create does: the validation ladder of the gateway, then an
/// insert of the base row and its subtype in one atomic step.
pub open spec fn create_client_spec(m: DbModel, p: Map<Seq<char>, Seq<char>>, today: Date) -> (
    DbModel,
    Result<i32, GatewayError>,
) {
    if !p.contains_key("nome"@) {
        (m, Err(GatewayError::Validation(Field::Nome)))
    } else if !p.contains_key("email"@) {
        (m, Err(GatewayError::Validation(Field::Email)))
    } else if !p.contains_key("tipoCliente"@) {
        (m, Err(GatewayError::Validation(Field::TipoCliente)))
    } else if p["tipoCliente"@] == "fisica"@ {
        if !p.contains_key("cpf"@) {
            (m, Err(GatewayError::Validation(Field::Cpf)))
        } else if m.cpf_taken(p["cpf"@]) {
            (m, Err(GatewayError::ConstraintViolation))
        } else {
            (
                DbModel {
                    clients: m.clients.push(
                        new_client_model(
                            m.next_client_id,
                            p,
                            today,
                            Some(ClientKindModel::Fisica(p["cpf"@])),
                        ),
                    ),
                    next_client_id: (m.next_client_id + 1) as i32,
                    ..m
                },
                Ok(m.next_client_id),
            )
        }
    } else if p["tipoCliente"@] == "juridica"@ {
        if !p.contains_key("cnpj"@) {
            (m, Err(GatewayError::Validation(Field::Cnpj)))
        } else if m.cnpj_taken(p["cnpj"@]) {
            (m, Err(GatewayError::ConstraintViolation))
        } else {
            (
                DbModel {
                    clients: m.clients.push(
                        new_client_model(
                            m.next_client_id,
                            p,
                            today,
                            Some(ClientKindModel::Juridica(p["cnpj"@])),
                        ),
                    ),
                    next_client_id: (m.next_client_id + 1) as i32,
                    ..m
                },
                Ok(m.next_client_id),
            )
        }
    } else {
        (m, Err(GatewayError::Validation(Field::TipoCliente)))
    }
}

/// What a client delete does: the row must exist and no case may still
/// reference it.
pub open spec fn delete_client_spec(m: DbModel, id: i32) -> (DbModel, Result<(), GatewayError>) {
    if !m.has_client(id) {
        (m, Err(GatewayError::NotFound))
    } else if m.client_referenced(id) {
        (m, Err(GatewayError::ConstraintViolation))
    } else {
        (DbModel { clients: m.clients.remove(m.client_idx(id)), ..m }, Ok(()))
    }
}

proof fn lemma_wf_after_client_push(m0: DbModel, m1: DbModel, c: ClientModel)
    requires
        m0.wf(),
        m0.next_client_id < i32::MAX,
        c.id == m0.next_client_id,
        (c.data_cadastro matches Some(d) ==> d.wf()),
        (cpf_of(c.kind) matches Some(s) ==> !m0.cpf_taken(s)),
        (cnpj_of(c.kind) matches Some(s) ==> !m0.cnpj_taken(s)),
        m1 == (DbModel {
            clients: m0.clients.push(c),
            next_client_id: (m0.next_client_id + 1) as i32,
            ..m0
        }),
    ensures
        m1.wf(),
{
    crate::store::lemma_wf_rows_preserved(m0, m1);
    assert forall|k: int| 0 <= k < m1.clients.len() implies ((
    #[trigger] m1.clients[k]).data_cadastro matches Some(d) ==> d.wf()) by {
        if k < m0.clients.len() {
            assert(m1.clients[k] == m0.clients[k]);
        }
    }
    assert forall|i: int| 0 <= i < m1.clients.len() implies 1 <= (#[trigger] m1.clients[i]).id
        < m1.next_client_id by {
        if i < m0.clients.len() {
            assert(m1.clients[i] == m0.clients[i]);
        }
    }
    assert forall|p: int, q: int| 0 <= p < q < m1.clients.len() implies client_pair_ok(
        #[trigger] m1.clients[p],
        #[trigger] m1.clients[q],
    ) by {
        assert(m1.clients[p] == m0.clients[p]);
        if q < m0.clients.len() {
            assert(m1.clients[q] == m0.clients[q]);
        } else {
            assert(m1.clients[q] == c);
            assert(m0.clients[p].id < m0.next_client_id);
            if cpf_of(m0.clients[p].kind) is Some {
                assert(cpf_of(m0.clients[p].kind) != cpf_of(c.kind));
            }
            if cnpj_of(m0.clients[p].kind) is Some {
                assert(cnpj_of(m0.clients[p].kind) != cnpj_of(c.kind));
            }
        }
    }
}

impl Database {
    /// Create a client from decoded query parameters; `today` is the
    /// registration date the caller observed. Succeeds exactly when the
    /// required fields are present, the type is an admissible value with its
    /// discriminant supplied, and the discriminant is new to the store.
    pub fn create_client(&mut self, p: &Params, today: Date) -> (r: Result<i32, GatewayError>)
        requires
            old(self).wf(),
            p.wf(),
            old(self).next_client_id < i32::MAX,
            today.wf(),
        ensures
            final(self).wf(),
            final(self)@ == create_client_spec(old(self)@, p@, today).0,
            r == create_client_spec(old(self)@, p@, today).1,
    {
        let nome = match p.get("nome") {
            Some(s) => s.clone(),
            None => {
                return Err(GatewayError::Validation(Field::Nome));
            },
        };
        let email = match p.get("email") {
            Some(s) => s.clone(),
            None => {
                return Err(GatewayError::Validation(Field::Email));
            },
        };
        let tipo = match p.get("tipoCliente") {
            Some(s) => s.clone(),
            None => {
                return Err(GatewayError::Validation(Field::TipoCliente));
            },
        };
        let telefone = match p.get("telefone") {
            Some(s) => s.clone(),
            None => sentinel_string(),
        };
        let endereco = match p.get("endereco") {
            Some(s) => s.clone(),
            None => sentinel_string(),
        };
        let kind: ClientKind = if str_eq(tipo.as_str(), "fisica") {
            let cpf = match p.get("cpf") {
                Some(s) => s.clone(),
                None => {
                    return Err(GatewayError::Validation(Field::Cpf));
                },
            };
            if self.cpf_in_use(cpf.as_str()) {
                return Err(GatewayError::ConstraintViolation);
            }
            ClientKind::Fisica(cpf)
        } else if str_eq(tipo.as_str(), "juridica") {
            let cnpj = match p.get("cnpj") {
                Some(s) => s.clone(),
                None => {
                    return Err(GatewayError::Validation(Field::Cnpj));
                },
            };
            if self.cnpj_in_use(cnpj.as_str()) {
                return Err(GatewayError::ConstraintViolation);
            }
            ClientKind::Juridica(cnpj)
        } else {
            return Err(GatewayError::Validation(Field::TipoCliente));
        };
        let id = self.next_client_id;
        self.clients.push(
            Client {
                id,
                nome,
                email: Some(email),
                telefone: Some(telefone),
                endereco: Some(endereco),
                data_cadastro: Some(today),
                kind: Some(kind),
            },
        );
        self.next_client_id = self.next_client_id + 1;
        proof {
            let m0 = old(self)@;
            let m1 = self@;
            let c = m1.clients.last();
            assert(m1.clients =~= m0.clients.push(c));
            assert(c =~= new_client_model(m0.next_client_id, p@, today, c.kind));
            assert(m1 =~= create_client_spec(m0, p@, today).0);
            lemma_wf_after_client_push(m0, m1, c);
        }
        Ok(id)
    }

    /// Delete a client by id: the whole row with its subtype, or nothing.
    pub fn delete_client(&mut self, id: i32) -> (r: Result<(), GatewayError>)
        requires
            old(self).wf(),
        ensures
            final(self).wf(),
            final(self)@ == delete_client_spec(old(self)@, id).0,
            r == delete_client_spec(old(self)@, id).1,
    {
        let i = match self.client_pos(id) {
            Some(i) => i,
            None => {
                return Err(GatewayError::NotFound);
            },
        };
        if self.client_has_case(id) {
            return Err(GatewayError::ConstraintViolation);
        }
        let ghost m0 = self@;
        self.clients.remove(i);
        proof {
            let m1 = self@;
            assert(m1.clients =~= m0.clients.remove(i as int));
            assert(m1 =~= delete_client_spec(m0, id).0);
            lemma_wf_after_client_remove(m0, m1, id, i as int);
        }
        Ok(())
    }
}

proof fn lemma_wf_after_client_remove(m0: DbModel, m1: DbModel, id: i32, i: int)
    requires
        m0.wf(),
        0 <= i < m0.clients.len(),
        m0.clients[i].id == id,
        !m0.client_referenced(id),
        m1 == (DbModel { clients: m0.clients.remove(i), ..m0 }),
    ensures
        m1.wf(),
{
    assert forall|k: int| 0 <= k < m1.clients.len() implies 1 <= (#[trigger] m1.clients[k]).id
        < m1.next_client_id by {
        if k < i {
            assert(m1.clients[k] == m0.clients[k]);
        } else {
            assert(m1.clients[k] == m0.clients[k + 1]);
        }
    }
    assert forall|p: int, q: int| 0 <= p < q < m1.clients.len() implies client_pair_ok(
        #[trigger] m1.clients[p],
        #[trigger] m1.clients[q],
    ) by {
        let p0: int = if p < i {
            p
        } else {
            p + 1
        };
        let q0: int = if q < i {
            q
        } else {
            q + 1
        };
        assert(m1.clients[p] == m0.clients[p0]);
        assert(m1.clients[q] == m0.clients[q0]);
        assert(client_pair_ok(m0.clients[p0], m0.clients[q0]));
    }
    assert forall|k: int| 0 <= k < m1.clients.len() implies ((
    #[trigger] m1.clients[k]).data_cadastro matches Some(d) ==> d.wf()) by {
        if k < i {
            assert(m1.clients[k] == m0.clients[k]);
        } else {
            assert(m1.clients[k] == m0.clients[k + 1]);
        }
    }
    assert forall|k: int| 0 <= k < m1.cases.len() implies m1.case_refs_ok(
        #[trigger] m1.cases[k],
    ) by {
        let c = m0.cases[k];
        assert(m1.cases[k] == c);
        assert(m0.case_refs_ok(c));
        assert(c.id_cliente != id);
        let w = choose|w: int|
            0 <= w < m0.clients.len() && (#[trigger] m0.clients[w]).id == c.id_cliente;
        if w < i {
            assert(m1.clients[w] == m0.clients[w]);
            assert(m1.has_client(c.id_cliente));
        } else {
            assert(w != i);
            assert(m1.clients[w - 1] == m0.clients[w]);
            assert(m1.has_client(c.id_cliente));
        }
        let wl = choose|w: int|
            0 <= w < m0.lawyers.len() && (#[trigger] m0.lawyers[w]).id == c.id_advogado;
        assert((#[trigger] m1.lawyers[wl]).id == c.id_advogado);
        let ws = choose|w: int|
            0 <= w < m0.statuses.len() && (#[trigger] m0.statuses[w]).id == c.id_status;
        assert((#[trigger] m1.statuses[ws]).id == c.id_status);
        match c.id_vara_judicial {
            Some(v) => {
                let wv = choose|w: int|
                    0 <= w < m0.courts.len() && (#[trigger] m0.courts[w]).id == v;
                assert((#[trigger] m1.courts[wv]).id == v);
            },
            None => {},
        }
        match c.id_categoria_caso {
            Some(v) => {
                let wc = choose|w: int|
                    0 <= w < m0.categories.len() && (#[trigger] m0.categories[w]).id == v;
                assert((#[trigger] m1.categories[wc]).id == v);
            },
            None => {},
        }
    }
    assert forall|k: int| 0 <= k < m1.documents.len() implies m1.has_case(
        (#[trigger] m1.documents[k]).id_caso,
    ) by {
        assert(m0.has_case(m0.documents[k].id_caso));
    }
}

/// The base row after an update: every text field replaced from the
/// parameters, the registration date kept, the subtype as decided.
pub open spec fn updated_base(
    cur: ClientModel,
    p: Map<Seq<char>, Seq<char>>,
    kind: Option<ClientKindModel>,
) -> ClientModel {
    ClientModel {
        id: cur.id,
        nome: p["nome"@],
        email: Some(p["email"@]),
        telefone: Some(param_or_sentinel(p, "telefone"@)),
        endereco: Some(param_or_sentinel(p, "endereco"@)),
        data_cadastro: cur.data_cadastro,
        kind: kind,
    }
}

/// The declared previous subtype; absent reads as the empty string.
pub open spec fn orig_tipo(p: Map<Seq<char>, Seq<char>>) -> Seq<char> {
    if p.contains_key("originalTipoCliente"@) {
        p["originalTipoCliente"@]
    } else {
        Seq::empty()
    }
}

/// The three-way branch of a client update: same type updates the subtype
/// row in place, a declared change deletes one subtype row and inserts the
/// other, and an initially untyped client gains its first subtype row. Each
/// branch demands its discriminant; a subtype row that would collide is a
/// constraint violation.
pub open spec fn kind_decision(
    m: DbModel,
    cur: ClientModel,
    p: Map<Seq<char>, Seq<char>>,
    id: i32,
) -> Result<Option<ClientKindModel>, GatewayError> {
    let tipo = p["tipoCliente"@];
    let orig = orig_tipo(p);
    if orig == "fisica"@ && tipo == "juridica"@ {
        if !p.contains_key("cnpj"@) {
            Err(GatewayError::Validation(Field::Cnpj))
        } else if cnpj_of(cur.kind) is Some {
            Err(GatewayError::ConstraintViolation)
        } else if m.cnpj_taken_other(p["cnpj"@], id) {
            Err(GatewayError::ConstraintViolation)
        } else {
            Ok(Some(ClientKindModel::Juridica(p["cnpj"@])))
        }
    } else if orig == "juridica"@ && tipo == "fisica"@ {
        if !p.contains_key("cpf"@) {
            Err(GatewayError::Validation(Field::Cpf))
        } else if cpf_of(cur.kind) is Some {
            Err(GatewayError::ConstraintViolation)
        } else if m.cpf_taken_other(p["cpf"@], id) {
            Err(GatewayError::ConstraintViolation)
        } else {
            Ok(Some(ClientKindModel::Fisica(p["cpf"@])))
        }
    } else if orig == tipo {
        if tipo == "fisica"@ {
            if !p.contains_key("cpf"@) {
                Err(GatewayError::Validation(Field::Cpf))
            } else if cpf_of(cur.kind) is Some {
                if m.cpf_taken_other(p["cpf"@], id) {
                    Err(GatewayError::ConstraintViolation)
                } else {
                    Ok(Some(ClientKindModel::Fisica(p["cpf"@])))
                }
            } else {
                Ok(cur.kind)
            }
        } else {
            if !p.contains_key("cnpj"@) {
                Err(GatewayError::Validation(Field::Cnpj))
            } else if cnpj_of(cur.kind) is Some {
                if m.cnpj_taken_other(p["cnpj"@], id) {
                    Err(GatewayError::ConstraintViolation)
                } else {
                    Ok(Some(ClientKindModel::Juridica(p["cnpj"@])))
                }
            } else {
                Ok(cur.kind)
            }
        }
    } else {
        if tipo == "fisica"@ {
            if !p.contains_key("cpf"@) {
                Err(GatewayError::Validation(Field::Cpf))
            } else if cur.kind is Some {
                Err(GatewayError::ConstraintViolation)
            } else if m.cpf_taken_other(p["cpf"@], id) {
                Err(GatewayError::ConstraintViolation)
            } else {
                Ok(Some(ClientKindModel::Fisica(p["cpf"@])))
            }
        } else {
            if !p.contains_key("cnpj"@) {
                Err(GatewayError::Validation(Field::Cnpj))
            } else if cur.kind is Some {
                Err(GatewayError::ConstraintViolation)
            } else if m.cnpj_taken_other(p["cnpj"@], id) {
                Err(GatewayError::ConstraintViolation)
            } else {
                Ok(Some(ClientKindModel::Juridica(p["cnpj"@])))
            }
        }
    }
}

/// What a client update does: full-record replace of the base row and the
/// subtype decision, all or nothing.
pub open spec fn update_client_spec(m: DbModel, p: Map<Seq<char>, Seq<char>>) -> (
    DbModel,
    Result<(), GatewayError>,
) {
    if !p.contains_key("id"@) {
        (m, Err(GatewayError::Validation(Field::Id)))
    } else {
        match parse_i32_spec(p["id"@]) {
            None => (m, Err(GatewayError::InvalidId)),
            Some(id) => {
                if !p.contains_key("nome"@) {
                    (m, Err(GatewayError::Validation(Field::Nome)))
                } else if !p.contains_key("email"@) {
                    (m, Err(GatewayError::Validation(Field::Email)))
                } else if !p.contains_key("tipoCliente"@) {
                    (m, Err(GatewayError::Validation(Field::TipoCliente)))
                } else if !(p["tipoCliente"@] == "fisica"@ || p["tipoCliente"@] == "juridica"@) {
                    (m, Err(GatewayError::Validation(Field::TipoCliente)))
                } else if !(orig_tipo(p) == Seq::<char>::empty() || orig_tipo(p) == "fisica"@
                    || orig_tipo(p) == "juridica"@) {
                    (m, Err(GatewayError::Validation(Field::OriginalTipoCliente)))
                } else if !m.has_client(id) {
                    (m, Err(GatewayError::NotFound))
                } else {
                    let cur = m.clients[m.client_idx(id)];
                    match kind_decision(m, cur, p, id) {
                        Err(e) => (m, Err(e)),
                        Ok(k) => (
                            DbModel {
                                clients: m.clients.update(m.client_idx(id), updated_base(cur, p, k)),
                                ..m
                            },
                            Ok(()),
                        ),
                    }
                }
            },
        }
    }
}

proof fn lemma_wf_after_client_update(m0: DbModel, m1: DbModel, id: i32, i: int, c: ClientModel)
    requires
        m0.wf(),
        0 <= i < m0.clients.len(),
        m0.clients[i].id == id,
        c.id == id,
        (c.data_cadastro matches Some(d) ==> d.wf()),
        (cpf_of(c.kind) matches Some(s) ==> !m0.cpf_taken_other(s, id)),
        (cnpj_of(c.kind) matches Some(s) ==> !m0.cnpj_taken_other(s, id)),
        m1 == (DbModel { clients: m0.clients.update(i, c), ..m0 }),
    ensures
        m1.wf(),
{
    assert forall|k: int| 0 <= k < m1.clients.len() implies 1 <= (#[trigger] m1.clients[k]).id
        < m1.next_client_id by {
        if k != i {
            assert(m1.clients[k] == m0.clients[k]);
        } else {
            assert(m0.clients[i].id == id);
        }
    }
    assert forall|p: int, q: int| 0 <= p < q < m1.clients.len() implies client_pair_ok(
        #[trigger] m1.clients[p],
        #[trigger] m1.clients[q],
    ) by {
        assert(client_pair_ok(m0.clients[p], m0.clients[q]));
        if p != i && q != i {
            assert(m1.clients[p] == m0.clients[p]);
            assert(m1.clients[q] == m0.clients[q]);
        } else if p == i {
            assert(m1.clients[q] == m0.clients[q]);
            assert(m0.clients[q].id != id);
            match cpf_of(c.kind) {
                Some(s) => {
                    assert(cpf_of(m0.clients[q].kind) != Some(s));
                },
                None => {},
            }
            match cnpj_of(c.kind) {
                Some(s) => {
                    assert(cnpj_of(m0.clients[q].kind) != Some(s));
                },
                None => {},
            }
        } else {
            assert(m1.clients[p] == m0.clients[p]);
            assert(m0.clients[p].id != id);
            match cpf_of(c.kind) {
                Some(s) => {
                    assert(cpf_of(m0.clients[p].kind) != Some(s));
                },
                None => {},
            }
            match cnpj_of(c.kind) {
                Some(s) => {
                    assert(cnpj_of(m0.clients[p].kind) != Some(s));
                },
                None => {},
            }
        }
    }
    assert forall|k: int| 0 <= k < m1.clients.len() implies ((
    #[trigger] m1.clients[k]).data_cadastro matches Some(d) ==> d.wf()) by {
        if k != i {
            assert(m1.clients[k] == m0.clients[k]);
        }
    }
    assert forall|k: int| 0 <= k < m1.cases.len() implies m1.case_refs_ok(
        #[trigger] m1.cases[k],
    ) by {
        let cs = m0.cases[k];
        assert(m1.cases[k] == cs);
        assert(m0.case_refs_ok(cs));
        let w = choose|w: int|
            0 <= w < m0.clients.len() && (#[trigger] m0.clients[w]).id == cs.id_cliente;
        if w == i {
            assert((#[trigger] m1.clients[i]).id == cs.id_cliente);
        } else {
            assert((#[trigger] m1.clients[w]).id == cs.id_cliente);
        }
        let wl = choose|w: int|
            0 <= w < m0.lawyers.len() && (#[trigger] m0.lawyers[w]).id == cs.id_advogado;
        assert((#[trigger] m1.lawyers[wl]).id == cs.id_advogado);
        let ws = choose|w: int|
            0 <= w < m0.statuses.len() && (#[trigger] m0.statuses[w]).id == cs.id_status;
        assert((#[trigger] m1.statuses[ws]).id == cs.id_status);
        match cs.id_vara_judicial {
            Some(v) => {
                let wv = choose|w: int|
                    0 <= w < m0.courts.len() && (#[trigger] m0.courts[w]).id == v;
                assert((#[trigger] m1.courts[wv]).id == v);
            },
            None => {},
        }
        match cs.id_categoria_caso {
            Some(v) => {
                let wc = choose|w: int|
                    0 <= w < m0.categories.len() && (#[trigger] m0.categories[w]).id == v;
                assert((#[trigger] m1.categories[wc]).id == v);
            },
            None => {},
        }
    }
    assert forall|k: int| 0 <= k < m1.documents.len() implies m1.has_case(
        (#[trigger] m1.documents[k]).id_caso,
    ) by {
        assert(m0.has_case(m0.documents[k].id_caso));
    }
}

/// Which subtype rows a client currently has.
fn kind_tags(k: &Option<ClientKind>) -> (r: (bool, bool))
    ensures
        r.0 == (cpf_of(opt_kind_view(k)) is Some),
        r.1 == (cnpj_of(opt_kind_view(k)) is Some),
{
    match k {
        Some(ClientKind::Fisica(_)) => (true, false),
        Some(ClientKind::Juridica(_)) => (false, true),
        None => (false, false),
    }
}

impl Database {
    /// Update a client by the id named in the parameters: full-record
    /// replace of the base row, and the declared-type branch on the subtype.
    /// A rejection of any step leaves the store unchanged.
    pub fn update_client(&mut self, p: &Params) -> (r: Result<(), GatewayError>)
        requires
            old(self).wf(),
            p.wf(),
        ensures
            final(self).wf(),
            final(self)@ == update_client_spec(old(self)@, p@).0,
            r == update_client_spec(old(self)@, p@).1,
    {
        let id_str = match p.get("id") {
            Some(s) => s.clone(),
            None => {
                return Err(GatewayError::Validation(Field::Id));
            },
        };
        let id = match parse_i32(id_str.as_str()) {
            Some(v) => v,
            None => {
                return Err(GatewayError::InvalidId);
            },
        };
        let nome = match p.get("nome") {
            Some(s) => s.clone(),
            None => {
                return Err(GatewayError::Validation(Field::Nome));
            },
        };
        let email = match p.get("email") {
            Some(s) => s.clone(),
            None => {
                return Err(GatewayError::Validation(Field::Email));
            },
        };
        let tipo = match p.get("tipoCliente") {
            Some(s) => s.clone(),
            None => {
                return Err(GatewayError::Validation(Field::TipoCliente));
            },
        };
        let telefone = match p.get("telefone") {
            Some(s) => s.clone(),
            None => sentinel_string(),
        };
        let endereco = match p.get("endereco") {
            Some(s) => s.clone(),
            None => sentinel_string(),
        };
        let orig = match p.get("originalTipoCliente") {
            Some(s) => s.clone(),
            None => String::new(),
        };
        let tipo_f = str_eq(tipo.as_str(), "fisica");
        let tipo_j = str_eq(tipo.as_str(), "juridica");
        if !tipo_f && !tipo_j {
            return Err(GatewayError::Validation(Field::TipoCliente));
        }
        let orig_e = orig.as_str().is_empty();
        let orig_f = str_eq(orig.as_str(), "fisica");
        let orig_j = str_eq(orig.as_str(), "juridica");
        proof {
            if orig@.len() == 0 {
                assert(orig@ =~= Seq::<char>::empty());
            }
        }
        if !orig_e && !orig_f && !orig_j {
            return Err(GatewayError::Validation(Field::OriginalTipoCliente));
        }
        let i = match self.client_pos(id) {
            Some(i) => i,
            None => {
                return Err(GatewayError::NotFound);
            },
        };
        let ghost m0 = self@;
        let ghost curm = m0.clients[i as int];
        let cpf_opt = crate::domain::clone_opt_string_ref(p.get("cpf"));
        let cnpj_opt = crate::domain::clone_opt_string_ref(p.get("cnpj"));
        let tags = kind_tags(&self.clients[i].kind);
        let cur_has_f = tags.0;
        let cur_has_j = tags.1;
        proof {
            assert(curm.kind == opt_kind_view(&self.clients@[i as int].kind));
        }
        let new_kind: Option<ClientKind> = if orig_f && tipo_j {
            let cnpj = match cnpj_opt {
                Some(c) => c,
                None => {
                    return Err(GatewayError::Validation(Field::Cnpj));
                },
            };
            if cur_has_j {
                return Err(GatewayError::ConstraintViolation);
            }
            if self.cnpj_in_use_other(cnpj.as_str(), id) {
                return Err(GatewayError::ConstraintViolation);
            }
            Some(ClientKind::Juridica(cnpj))
        } else if orig_j && tipo_f {
            let cpf = match cpf_opt {
                Some(c) => c,
                None => {
                    return Err(GatewayError::Validation(Field::Cpf));
                },
            };
            if cur_has_f {
                return Err(GatewayError::ConstraintViolation);
            }
            if self.cpf_in_use_other(cpf.as_str(), id) {
                return Err(GatewayError::ConstraintViolation);
            }
            Some(ClientKind::Fisica(cpf))
        } else if (orig_f && tipo_f) || (orig_j && tipo_j) {
            if tipo_f {
                let cpf = match cpf_opt {
                    Some(c) => c,
                    None => {
                        return Err(GatewayError::Validation(Field::Cpf));
                    },
                };
                if cur_has_f {
                    if self.cpf_in_use_other(cpf.as_str(), id) {
                        return Err(GatewayError::ConstraintViolation);
                    }
                    Some(ClientKind::Fisica(cpf))
                } else {
                    let kept = crate::domain::clone_kind(&self.clients[i].kind);
                    proof {
                        lemma_other_kind_free(m0, i as int, id);
                    }
                    kept
                }
            } else {
                let cnpj = match cnpj_opt {
                    Some(c) => c,
                    None => {
                        return Err(GatewayError::Validation(Field::Cnpj));
                    },
                };
                if cur_has_j {
                    if self.cnpj_in_use_other(cnpj.as_str(), id) {
                        return Err(GatewayError::ConstraintViolation);
                    }
                    Some(ClientKind::Juridica(cnpj))
                } else {
                    let kept = crate::domain::clone_kind(&self.clients[i].kind);
                    proof {
                        lemma_other_kind_free(m0, i as int, id);
                    }
                    kept
                }
            }
        } else {
            if tipo_f {
                let cpf = match cpf_opt {
                    Some(c) => c,
                    None => {
                        return Err(GatewayError::Validation(Field::Cpf));
                    },
                };
                if cur_has_f || cur_has_j {
                    return Err(GatewayError::ConstraintViolation);
                }
                if self.cpf_in_use_other(cpf.as_str(), id) {
                    return Err(GatewayError::ConstraintViolation);
                }
                Some(ClientKind::Fisica(cpf))
            } else {
                let cnpj = match cnpj_opt {
                    Some(c) => c,
                    None => {
                        return Err(GatewayError::Validation(Field::Cnpj));
                    },
                };
                if cur_has_f || cur_has_j {
                    return Err(GatewayError::ConstraintViolation);
                }
                if self.cnpj_in_use_other(cnpj.as_str(), id) {
                    return Err(GatewayError::ConstraintViolation);
                }
                Some(ClientKind::Juridica(cnpj))
            }
        };
        let cur_data = self.clients[i].data_cadastro;
        let newc = Client {
            id,
            nome,
            email: Some(email),
            telefone: Some(telefone),
            endereco: Some(endereco),
            data_cadastro: cur_data,
            kind: new_kind,
        };
        self.clients.remove(i);
        self.clients.insert(i, newc);
        proof {
            let m1 = self@;
            let c = m1.clients[i as int];
            assert(m1.clients =~= m0.clients.update(i as int, c));
            assert(c =~= updated_base(curm, p@, c.kind));
            assert(kind_decision(m0, curm, p@, id) == Ok::<Option<ClientKindModel>, GatewayError>(
                c.kind,
            ));
            assert(m1 =~= update_client_spec(m0, p@).0);
            lemma_wf_after_client_update(m0, m1, id, i as int, c);
        }
        Ok(())
    }
}

/// Under the store invariant, a subtype value held by one client is held by
/// no other.
proof fn lemma_other_kind_free(m: DbModel, i: int, id: i32)
    requires
        m.wf(),
        0 <= i < m.clients.len(),
        m.clients[i].id == id,
    ensures
        (cpf_of(m.clients[i].kind) matches Some(s) ==> !m.cpf_taken_other(s, id)),
        (cnpj_of(m.clients[i].kind) matches Some(s) ==> !m.cnpj_taken_other(s, id)),
{
    match cpf_of(m.clients[i].kind) {
        Some(s) => {
            if m.cpf_taken_other(s, id) {
                let j = choose|j: int|
                    0 <= j < m.clients.len() && (#[trigger] m.clients[j]).id != id && cpf_of(
                        m.clients[j].kind,
                    ) == Some(s);
                assert(j != i);
                if j < i {
                    assert(client_pair_ok(m.clients[j], m.clients[i]));
                } else {
                    assert(client_pair_ok(m.clients[i], m.clients[j]));
                }
                assert(false);
            }
        },
        None => {},
    }
    match cnpj_of(m.clients[i].kind) {
        Some(s) => {
            if m.cnpj_taken_other(s, id) {
                let j = choose|j: int|
                    0 <= j < m.clients.len() && (#[trigger] m.clients[j]).id != id && cnpj_of(
                        m.clients[j].kind,
                    ) == Some(s);
                assert(j != i);
                if j < i {
                    assert(client_pair_ok(m.clients[j], m.clients[i]));
                } else {
                    assert(client_pair_ok(m.clients[i], m.clients[j]));
                }
                assert(false);
            }
        },
        None => {},
    }
}

} // verus!
