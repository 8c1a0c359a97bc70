use gerenciador_tarefas::validador::{
    validar_cpf, validar_email, validar_senha_forte, validar_telefone,
};

#[test]
fn test_validar_email_formato_valido_simples() {
    assert!(validar_email("usuario@exemplo.com"));
}

#[test]
fn test_validar_email_formato_valido_com_subdominio() {
    assert!(validar_email("usuario@mail.exemplo.com"));
}

#[test]
fn test_validar_email_formato_valido_com_numeros() {
    assert!(validar_email("usuario123@exemplo.com"));
}

#[test]
fn test_validar_email_sem_arroba_retorna_false() {
    assert!(!validar_email("usuarioexemplo.com"));
}

#[test]
fn test_validar_email_sem_dominio_retorna_false() {
    assert!(!validar_email("usuario@"));
}

#[test]
fn test_validar_email_sem_local_retorna_false() {
    assert!(!validar_email("@exemplo.com"));
}

#[test]
fn test_validar_email_vazio_retorna_false() {
    assert!(!validar_email(""));
}

#[test]
fn test_validar_email_sem_ponto_no_dominio_retorna_false() {
    assert!(!validar_email("usuario@exemplo"));
}

#[test]
fn test_validar_email_multiplos_arrobas_retorna_false() {
    assert!(!validar_email("usuario@@exemplo.com"));
}

#[test]
fn test_validar_cpf_formato_com_pontos_e_traco() {
    assert!(validar_cpf("123.456.789-00"));
}

#[test]
fn test_validar_cpf_formato_apenas_numeros() {
    assert!(validar_cpf("12345678900"));
}

#[test]
fn test_validar_cpf_com_espacos_retorna_false() {
    assert!(!validar_cpf("123 456 789 00"));
}

#[test]
fn test_validar_cpf_com_menos_digitos_retorna_false() {
    assert!(!validar_cpf("123.456.789"));
}

#[test]
fn test_validar_cpf_com_mais_digitos_retorna_false() {
    assert!(!validar_cpf("123.456.789-001"));
}

#[test]
fn test_validar_cpf_vazio_retorna_false() {
    assert!(!validar_cpf(""));
}

#[test]
fn test_validar_cpf_com_letras_retorna_false() {
    assert!(!validar_cpf("123.456.789-0A"));
}

#[test]
fn test_validar_senha_forte_com_todos_requisitos() {
    assert!(validar_senha_forte("Senh@123"));
}

#[test]
fn test_validar_senha_forte_complexa() {
    assert!(validar_senha_forte("C0mpl3x@Pass!"));
}

#[test]
fn test_validar_senha_sem_maiuscula_retorna_false() {
    assert!(!validar_senha_forte("senh@123"));
}

#[test]
fn test_validar_senha_sem_minuscula_retorna_false() {
    assert!(!validar_senha_forte("SENH@123"));
}

#[test]
fn test_validar_senha_sem_numero_retorna_false() {
    assert!(!validar_senha_forte("Senh@abc"));
}

#[test]
fn test_validar_senha_sem_especial_retorna_false() {
    assert!(!validar_senha_forte("Senha123"));
}

#[test]
fn test_validar_senha_muito_curta_retorna_false() {
    assert!(!validar_senha_forte("Se@1"));
}

#[test]
fn test_validar_senha_vazia_retorna_false() {
    assert!(!validar_senha_forte(""));
}

#[test]
fn test_validar_senha_exatamente_8_caracteres() {
    assert!(validar_senha_forte("Senh@123"));
}

#[test]
fn test_validar_telefone_fixo_com_formatacao() {
    assert!(validar_telefone("(11) 3333-4444"));
}

#[test]
fn test_validar_telefone_celular_com_formatacao() {
    assert!(validar_telefone("(11) 98888-7777"));
}

#[test]
fn test_validar_telefone_apenas_numeros_10_digitos() {
    assert!(validar_telefone("1133334444"));
}

#[test]
fn test_validar_telefone_apenas_numeros_11_digitos() {
    assert!(validar_telefone("11988887777"));
}

#[test]
fn test_validar_telefone_com_menos_digitos_retorna_false() {
    assert!(!validar_telefone("11 3333-444"));
}

#[test]
fn test_validar_telefone_com_mais_digitos_retorna_false() {
    assert!(!validar_telefone("11 98888-77777"));
}

#[test]
fn test_validar_telefone_vazio_retorna_false() {
    assert!(!validar_telefone(""));
}
