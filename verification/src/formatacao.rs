//! One-line renderings of the library's records, stated character for
//! character.

use vstd::prelude::*;

use vstd::string::{StrSliceExecFns, StringExecFns};

use crate::digits::{digits_of, u64_to_string};
use crate::emprestimo::Emprestimo;
use crate::livro::Livro;
use crate::usuario::Usuario;

verus! {

/// The line `formatar_livro` renders.
pub open spec fn livro_line(l: Livro) -> Seq<char> {
    "ID: "@ + digits_of(l.id as nat) + " | "@ + l.titulo@ + " - "@ + l.autor@ + " ("@ + digits_of(
        l.ano as nat,
    ) + ") | "@ + (if l.disponivel {
        "✅ Disponível"@
    } else {
        "❌ Emprestado"@
    })
}

/// Renders a book as one line: id, title, author, year and availability.
pub fn formatar_livro(livro: &Livro) -> (r: String)
    ensures
        r@ == livro_line(*livro),
{
    let mut s = String::new();
    s.append("ID: ");
    let id_s = u64_to_string(livro.id as u64);
    s.append(id_s.as_str());
    s.append(" | ");
    s.append(livro.titulo.as_str());
    s.append(" - ");
    s.append(livro.autor.as_str());
    s.append(" (");
    let ano_s = u64_to_string(livro.ano as u64);
    s.append(ano_s.as_str());
    s.append(") | ");
    if livro.disponivel {
        s.append("✅ Disponível");
    } else {
        s.append("❌ Emprestado");
    }
    proof {
        assert(s@ =~= livro_line(*livro));
    }
    s
}

/// The line `formatar_usuario` renders.
pub open spec fn usuario_line(u: Usuario) -> Seq<char> {
    "ID: "@ + digits_of(u.id as nat) + " | Nome: "@ + u.nome@ + " | CPF: "@ + u.cpf@
}

/// Renders a user as one line: id, name and CPF.
pub fn formatar_usuario(usuario: &Usuario) -> (r: String)
    ensures
        r@ == usuario_line(*usuario),
{
    let mut s = String::new();
    s.append("ID: ");
    let id_s = u64_to_string(usuario.id as u64);
    s.append(id_s.as_str());
    s.append(" | Nome: ");
    s.append(usuario.nome.as_str());
    s.append(" | CPF: ");
    s.append(usuario.cpf.as_str());
    proof {
        assert(s@ =~= usuario_line(*usuario));
    }
    s
}

/// The line `formatar_emprestimo` renders.
pub open spec fn emprestimo_line(e: Emprestimo) -> Seq<char> {
    "ID: "@ + digits_of(e.id as nat) + " | Usuário: "@ + digits_of(e.usuario_id as nat)
        + " | Livro: "@ + digits_of(e.livro_id as nat) + " | Empréstimo: "@ + e.data_emprestimo@
        + " | "@ + (match e.data_devolucao {
        Some(d) => "Devolvido em "@ + d@,
        None => "Em aberto"@,
    })
}

/// Renders a loan as one line: ids, the loan date, and the return state.
pub fn formatar_emprestimo(emprestimo: &Emprestimo) -> (r: String)
    ensures
        r@ == emprestimo_line(*emprestimo),
{
    let mut s = String::new();
    s.append("ID: ");
    let id_s = u64_to_string(emprestimo.id as u64);
    s.append(id_s.as_str());
    s.append(" | Usuário: ");
    let uid_s = u64_to_string(emprestimo.usuario_id as u64);
    s.append(uid_s.as_str());
    s.append(" | Livro: ");
    let lid_s = u64_to_string(emprestimo.livro_id as u64);
    s.append(lid_s.as_str());
    s.append(" | Empréstimo: ");
    s.append(emprestimo.data_emprestimo.as_str());
    s.append(" | ");
    match &emprestimo.data_devolucao {
        Some(d) => {
            s.append("Devolvido em ");
            s.append(d.as_str());
        },
        None => {
            s.append("Em aberto");
        },
    }
    proof {
        assert(s@ =~= emprestimo_line(*emprestimo));
    }
    s
}

} // verus!
