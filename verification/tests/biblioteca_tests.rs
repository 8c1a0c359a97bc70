use gerenciador_tarefas::emprestimo::Emprestimo;
use gerenciador_tarefas::emprestimo_service::EmprestimoService;
use gerenciador_tarefas::formatacao::{formatar_emprestimo, formatar_livro, formatar_usuario};
use gerenciador_tarefas::livro::Livro;
use gerenciador_tarefas::livro_service::LivroService;
use gerenciador_tarefas::usuario::Usuario;
use gerenciador_tarefas::usuario_service::UsuarioService;
use gerenciador_tarefas::validacao::validar_cpf;

#[test]
fn test_criar_livro_valido() {
    let livro = Livro::novo(1, "1984".to_string(), "George Orwell".to_string(), 1949);
    assert!(livro.is_ok());
}

#[test]
fn test_emprestar_livro() {
    let mut livro = Livro::novo(1, "1984".to_string(), "George Orwell".to_string(), 1949).unwrap();

    assert!(livro.emprestar().is_ok());
    assert!(!livro.disponivel);
    assert!(livro.emprestar().is_err());
}

#[test]
fn test_criar_usuario_valido() {
    let usuario = Usuario::novo(1, "Alice".to_string(), "12345678901".to_string());
    assert!(usuario.is_ok());
}

#[test]
fn usuario_test_cpf_invalido() {
    let usuario = Usuario::novo(1, "Alice".to_string(), "123".to_string());
    assert!(usuario.is_err());
}

#[test]
fn test_cpf_valido() {
    assert!(validar_cpf("12345678901"));
    assert!(validar_cpf("123.456.789-01"));
}

#[test]
fn validacao_test_cpf_invalido() {
    assert!(!validar_cpf("123"));
    assert!(!validar_cpf("11111111111"));
}

#[test]
fn livro_invalido_por_ano() {
    let cedo = Livro::novo(1, "Crônica".to_string(), "Anônimo".to_string(), 999);
    assert_eq!(cedo.unwrap_err(), "Ano inválido");
    let tarde = Livro::novo(1, "Crônica".to_string(), "Anônimo".to_string(), 2101);
    assert!(tarde.is_err());
    let limite = Livro::novo(1, "Crônica".to_string(), "Anônimo".to_string(), 1000);
    assert!(limite.is_ok());
}

#[test]
fn livro_invalido_por_titulo_ou_autor() {
    let sem_titulo = Livro::novo(1, "".to_string(), "Alguém".to_string(), 2000);
    assert_eq!(sem_titulo.unwrap_err(), "Título não pode ser vazio");
    let sem_autor = Livro::novo(1, "Obra".to_string(), "".to_string(), 2000);
    assert_eq!(sem_autor.unwrap_err(), "Autor não pode ser vazio");
}

#[test]
fn usuario_sem_nome() {
    let usuario = Usuario::novo(1, "".to_string(), "12345678901".to_string());
    assert_eq!(usuario.unwrap_err(), "Nome não pode ser vazio");
}

#[test]
fn fluxo_de_emprestimo_completo() {
    let mut usuarios = UsuarioService::novo();
    let mut livros = LivroService::novo();
    let mut emprestimos = EmprestimoService::novo();

    let uid = usuarios
        .cadastrar("Alice".to_string(), "12345678901".to_string())
        .unwrap();
    let lid = livros
        .adicionar("1984".to_string(), "George Orwell".to_string(), 1949)
        .unwrap();

    let eid = emprestimos
        .emprestar(&usuarios, &mut livros, uid, lid, "2024-01-02".to_string())
        .unwrap();
    assert_eq!(eid, 1);
    assert!(!livros.buscar(lid).unwrap().disponivel);
    assert_eq!(emprestimos.listar_ativos().len(), 1);

    let de_novo = emprestimos.emprestar(&usuarios, &mut livros, uid, lid, "2024-01-03".to_string());
    assert_eq!(de_novo.unwrap_err(), "Livro já está emprestado");

    emprestimos
        .devolver(&mut livros, eid, "2024-02-01".to_string())
        .unwrap();
    assert!(livros.buscar(lid).unwrap().disponivel);
    assert_eq!(emprestimos.listar_ativos().len(), 0);
    assert_eq!(emprestimos.listar().len(), 1);

    let repetida = emprestimos.devolver(&mut livros, eid, "2024-02-02".to_string());
    assert_eq!(repetida.unwrap_err(), "Livro já foi devolvido");
}

#[test]
fn emprestimo_exige_usuario_e_livro() {
    let usuarios = UsuarioService::novo();
    let mut livros = LivroService::novo();
    let mut emprestimos = EmprestimoService::novo();

    let sem_usuario = emprestimos.emprestar(&usuarios, &mut livros, 7, 1, "2024".to_string());
    assert_eq!(sem_usuario.unwrap_err(), "Usuário não encontrado");

    let mut usuarios = UsuarioService::novo();
    let uid = usuarios
        .cadastrar("Bea".to_string(), "10987654321".to_string())
        .unwrap();
    let sem_livro = emprestimos.emprestar(&usuarios, &mut livros, uid, 9, "2024".to_string());
    assert_eq!(sem_livro.unwrap_err(), "Livro não encontrado");

    let ausente = emprestimos.devolver(&mut livros, 3, "2024".to_string());
    assert_eq!(ausente.unwrap_err(), "Empréstimo não encontrado");
}

#[test]
fn cadastro_recusa_cpf_repetido() {
    let mut usuarios = UsuarioService::novo();
    usuarios
        .cadastrar("Alice".to_string(), "12345678901".to_string())
        .unwrap();
    let repetido = usuarios.cadastrar("Clara".to_string(), "12345678901".to_string());
    assert_eq!(repetido.unwrap_err(), "CPF já cadastrado");
}

#[test]
fn listagens_do_catalogo() {
    let mut livros = LivroService::novo();
    let a = livros
        .adicionar("Obra A".to_string(), "Autora".to_string(), 2001)
        .unwrap();
    let b = livros
        .adicionar("Obra B".to_string(), "Autor".to_string(), 2002)
        .unwrap();
    assert_eq!(a, 1);
    assert_eq!(b, 2);

    livros.buscar_mut(a).unwrap().emprestar().unwrap();

    let todos = livros.listar();
    assert_eq!(todos.len(), 2);
    let disponiveis = livros.listar_disponiveis();
    assert_eq!(disponiveis.len(), 1);
    assert_eq!(disponiveis[0].id, b);
    assert!(livros.buscar(42).is_none());
}

#[test]
fn formatadores_exatos() {
    let livro = Livro::novo(3, "Dom Casmurro".to_string(), "Machado".to_string(), 1899).unwrap();
    assert_eq!(
        formatar_livro(&livro),
        "ID: 3 | Dom Casmurro - Machado (1899) | ✅ Disponível"
    );
    let mut emprestado = livro;
    emprestado.emprestar().unwrap();
    assert_eq!(
        formatar_livro(&emprestado),
        "ID: 3 | Dom Casmurro - Machado (1899) | ❌ Emprestado"
    );

    let usuario = Usuario::novo(2, "Alice".to_string(), "12345678901".to_string()).unwrap();
    assert_eq!(
        formatar_usuario(&usuario),
        "ID: 2 | Nome: Alice | CPF: 12345678901"
    );

    let mut emprestimo = Emprestimo::novo(5, 2, 3, "2024-01-02".to_string());
    assert_eq!(
        formatar_emprestimo(&emprestimo),
        "ID: 5 | Usuário: 2 | Livro: 3 | Empréstimo: 2024-01-02 | Em aberto"
    );
    emprestimo.devolver("2024-02-01".to_string());
    assert!(emprestimo.foi_devolvido());
    assert_eq!(
        formatar_emprestimo(&emprestimo),
        "ID: 5 | Usuário: 2 | Livro: 3 | Empréstimo: 2024-01-02 | Devolvido em 2024-02-01"
    );
}
