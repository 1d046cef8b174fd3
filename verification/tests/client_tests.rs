use lexgate::codec::extract_query_values;
use lexgate::dates::Date;
use lexgate::domain::{Field, GatewayError};
use lexgate::store::Database;

fn today() -> Date {
    Date { year: 2024, month: 6, day: 1 }
}

#[test]
fn fisica_without_cpf_commits_nothing() {
    let mut db = Database::new();
    let p = extract_query_values("nome=Ana&email=ana%40ex.com&tipoCliente=fisica").unwrap();
    let r = db.create_client(&p, today());
    assert_eq!(r.unwrap_err(), GatewayError::Validation(Field::Cpf));
    let listed = db.list_clients();
    assert!(listed.iter().all(|c| c.nome != "Ana"));
    assert_eq!(listed.len(), 0);
}

#[test]
fn create_and_read_back_with_sentinels() {
    let mut db = Database::new();
    let p = extract_query_values(
        "nome=Ana+Lima&email=ana%40ex.com&tipoCliente=fisica&cpf=111.222.333-44",
    )
    .unwrap();
    let id = db.create_client(&p, today()).unwrap();
    assert_eq!(id, 1);
    let d = db.get_client(id).unwrap();
    assert_eq!(d.nome, "Ana Lima");
    assert_eq!(d.email, "ana@ex.com");
    assert_eq!(d.telefone, "Nao identificado");
    assert_eq!(d.endereco, "Nao identificado");
    assert_eq!(d.data_cadastro, "2024-06-01");
    assert_eq!(d.cpf.as_deref(), Some("111.222.333-44"));
    assert_eq!(d.cnpj, None);
}

#[test]
fn missing_required_fields_are_named() {
    let mut db = Database::new();
    let p = extract_query_values("email=x%40y.z").unwrap();
    assert_eq!(
        db.create_client(&p, today()).unwrap_err(),
        GatewayError::Validation(Field::Nome)
    );
    let p = extract_query_values("nome=X&email=x%40y.z").unwrap();
    assert_eq!(
        db.create_client(&p, today()).unwrap_err(),
        GatewayError::Validation(Field::TipoCliente)
    );
    let p = extract_query_values("nome=X&email=x%40y.z&tipoCliente=outra").unwrap();
    assert_eq!(
        db.create_client(&p, today()).unwrap_err(),
        GatewayError::Validation(Field::TipoCliente)
    );
}

#[test]
fn duplicate_cpf_is_a_constraint_violation() {
    let mut db = Database::new();
    let p = extract_query_values("nome=A&email=a%40a.a&tipoCliente=fisica&cpf=1").unwrap();
    db.create_client(&p, today()).unwrap();
    let q = extract_query_values("nome=B&email=b%40b.b&tipoCliente=fisica&cpf=1").unwrap();
    assert_eq!(
        db.create_client(&q, today()).unwrap_err(),
        GatewayError::ConstraintViolation
    );
    assert_eq!(db.list_clients().len(), 1);
}

#[test]
fn switch_to_juridica_without_cnpj_rolls_back() {
    let mut db = Database::new();
    let p = extract_query_values("nome=Ana&email=ana%40ex.com&tipoCliente=fisica&cpf=123").unwrap();
    let id = db.create_client(&p, today()).unwrap();
    let upd = extract_query_values(
        "id=1&nome=Outra&email=outra%40ex.com&tipoCliente=juridica&originalTipoCliente=fisica",
    )
    .unwrap();
    assert_eq!(
        db.update_client(&upd).unwrap_err(),
        GatewayError::Validation(Field::Cnpj)
    );
    let d = db.get_client(id).unwrap();
    assert_eq!(d.nome, "Ana");
    assert_eq!(d.email, "ana@ex.com");
    assert_eq!(d.cpf.as_deref(), Some("123"));
    assert_eq!(d.cnpj, None);
}

#[test]
fn switch_to_juridica_with_cnpj_replaces_the_subtype() {
    let mut db = Database::new();
    let p = extract_query_values("nome=Ana&email=ana%40ex.com&tipoCliente=fisica&cpf=123").unwrap();
    let id = db.create_client(&p, today()).unwrap();
    let upd = extract_query_values(
        "id=1&nome=Ana&email=ana%40ex.com&tipoCliente=juridica&originalTipoCliente=fisica&cnpj=99.000",
    )
    .unwrap();
    db.update_client(&upd).unwrap();
    let d = db.get_client(id).unwrap();
    assert_eq!(d.cpf, None);
    assert_eq!(d.cnpj.as_deref(), Some("99.000"));
}

#[test]
fn update_of_unknown_id_is_not_found() {
    let mut db = Database::new();
    let upd = extract_query_values(
        "id=5&nome=N&email=n%40n.n&tipoCliente=fisica&originalTipoCliente=fisica&cpf=1",
    )
    .unwrap();
    assert_eq!(db.update_client(&upd).unwrap_err(), GatewayError::NotFound);
}

#[test]
fn update_with_bad_id_is_invalid() {
    let mut db = Database::new();
    let upd = extract_query_values("id=x&nome=N&email=n%40n.n&tipoCliente=fisica&cpf=1").unwrap();
    assert_eq!(db.update_client(&upd).unwrap_err(), GatewayError::InvalidId);
}

#[test]
fn delete_requires_an_existing_unreferenced_client() {
    let mut db = Database::new();
    assert_eq!(db.delete_client(1).unwrap_err(), GatewayError::NotFound);
    let p = extract_query_values("nome=A&email=a%40a.a&tipoCliente=fisica&cpf=1").unwrap();
    let id = db.create_client(&p, today()).unwrap();
    db.delete_client(id).unwrap();
    assert_eq!(db.list_clients().len(), 0);
}

#[test]
fn client_list_is_sorted_by_name() {
    let mut db = Database::new();
    for (n, c) in [("Carla", "3"), ("Ana", "1"), ("Bruno", "2")] {
        let q = format!("nome={}&email=e%40e.e&tipoCliente=fisica&cpf={}", n, c);
        db.create_client(&extract_query_values(&q).unwrap(), today()).unwrap();
    }
    let names: Vec<String> = db.list_clients().into_iter().map(|c| c.nome).collect();
    assert_eq!(names, vec!["Ana".to_string(), "Bruno".to_string(), "Carla".to_string()]);
    let full = db.list_clients_full();
    assert_eq!(full[0].nome, "Ana");
    assert_eq!(full[0].telefone.as_deref(), Some("Nao identificado"));
    assert_eq!(full[0].data_cadastro.as_deref(), Some("2024-06-01"));
}
