//! The loan desk: opens and closes loans, keeping the user register and the
//! book catalogue honest on the way.

use vstd::prelude::*;

use vstd::string::StringExecFns;

use crate::emprestimo::Emprestimo;
use crate::livro::Livro;
use crate::livro_service::{contains_livro, index_of_livro, livro_service_wf, LivroService};
use crate::usuario_service::{contains_usuario, usuario_service_wf, UsuarioService};

verus! {

/// The mathematical state of the loan desk.
pub struct EmprestimoServiceV {
    pub emprestimos: Seq<Emprestimo>,
    pub proximo_id: u32,
}

/// Loan-desk invariant: ids pairwise distinct and below the allocator's next
/// value.
pub open spec fn emprestimo_service_wf(s: EmprestimoServiceV) -> bool {
    &&& s.proximo_id >= 1
    &&& forall|i: int|
        0 <= i < s.emprestimos.len() ==> (#[trigger] s.emprestimos[i]).id < s.proximo_id
    &&& forall|i: int, j: int|
        0 <= i < j < s.emprestimos.len() ==> s.emprestimos[i].id != s.emprestimos[j].id
}

/// Some loan in `es` carries the id.
pub open spec fn contains_emprestimo(es: Seq<Emprestimo>, id: u32) -> bool {
    exists|i: int| 0 <= i < es.len() && es[i].id == id
}

/// The position of the loan with the id (unique under the invariant).
pub open spec fn index_of_emprestimo(es: Seq<Emprestimo>, id: u32) -> int {
    choose|i: int| 0 <= i < es.len() && es[i].id == id
}

/// Open loans, as a filter.
pub open spec fn ativo_filter() -> spec_fn(Emprestimo) -> bool {
    |e: Emprestimo| e.data_devolucao is None
}

/// Under distinct ids, any position holding `id` is the position `choose`
/// picks.
pub proof fn lemma_emprestimo_index_unique(es: Seq<Emprestimo>, id: u32, k: int)
    requires
        forall|i: int, j: int| 0 <= i < j < es.len() ==> es[i].id != es[j].id,
        0 <= k < es.len(),
        es[k].id == id,
    ensures
        contains_emprestimo(es, id),
        index_of_emprestimo(es, id) == k,
{
    assert(contains_emprestimo(es, id));
    let i = index_of_emprestimo(es, id);
    if i < k {
        assert(es[i].id != es[k].id);
    } else if k < i {
        assert(es[k].id != es[i].id);
    }
}

/// Manages the loans of the library.
pub struct EmprestimoService {
    emprestimos: Vec<Emprestimo>,
    proximo_id: u32,
}

impl View for EmprestimoService {
    type V = EmprestimoServiceV;

    closed spec fn view(&self) -> EmprestimoServiceV {
        EmprestimoServiceV { emprestimos: self.emprestimos@, proximo_id: self.proximo_id }
    }
}

impl EmprestimoService {
    /// An empty loan desk.
    pub fn novo() -> (s: EmprestimoService)
        ensures
            s@.emprestimos == Seq::<Emprestimo>::empty(),
            s@.proximo_id == 1,
            emprestimo_service_wf(s@),
    {
        let s = EmprestimoService { emprestimos: Vec::new(), proximo_id: 1 };
        proof {
            assert(s@.emprestimos =~= Seq::<Emprestimo>::empty());
        }
        s
    }

    /// Opens a loan: the user must exist, the book must exist and be
    /// available. On success the book becomes unavailable and a fresh loan id
    /// is returned; on any failure nothing has changed.
    pub fn emprestar(
        &mut self,
        usuario_service: &UsuarioService,
        livro_service: &mut LivroService,
        usuario_id: u32,
        livro_id: u32,
        data: String,
    ) -> (r: Result<u32, String>)
        requires
            emprestimo_service_wf(old(self)@),
            livro_service_wf(old(livro_service)@),
            usuario_service_wf(usuario_service@),
            old(self)@.proximo_id < u32::MAX,
        ensures
            emprestimo_service_wf(final(self)@),
            livro_service_wf(final(livro_service)@),
            match r {
                Ok(id) => {
                    &&& contains_usuario(usuario_service@.usuarios, usuario_id)
                    &&& contains_livro(old(livro_service)@.livros, livro_id)
                    &&& old(livro_service)@.livros[index_of_livro(
                        old(livro_service)@.livros,
                        livro_id,
                    )].disponivel
                    &&& final(livro_service)@.livros == old(livro_service)@.livros.update(
                        index_of_livro(old(livro_service)@.livros, livro_id),
                        (Livro {
                            disponivel: false,
                            ..old(livro_service)@.livros[index_of_livro(
                                old(livro_service)@.livros,
                                livro_id,
                            )]
                        }),
                    )
                    &&& final(livro_service)@.proximo_id == old(livro_service)@.proximo_id
                    &&& id == old(self)@.proximo_id
                    &&& final(self)@.emprestimos == old(self)@.emprestimos.push(
                        (Emprestimo {
                            id,
                            usuario_id,
                            livro_id,
                            data_emprestimo: data,
                            data_devolucao: None,
                        }),
                    )
                    &&& final(self)@.proximo_id == old(self)@.proximo_id + 1
                },
                Err(e) => {
                    &&& final(self)@ == old(self)@
                    &&& final(livro_service)@ == old(livro_service)@
                    &&& if !contains_usuario(usuario_service@.usuarios, usuario_id) {
                        e@ == "Usuário não encontrado"@
                    } else if !contains_livro(old(livro_service)@.livros, livro_id) {
                        e@ == "Livro não encontrado"@
                    } else {
                        &&& !old(livro_service)@.livros[index_of_livro(
                            old(livro_service)@.livros,
                            livro_id,
                        )].disponivel
                        &&& e@ == "Livro já está emprestado"@
                    }
                },
            },
    {
        if usuario_service.buscar(usuario_id).is_none() {
            return Err(String::from_str("Usuário não encontrado"));
        }
        let livro = match livro_service.buscar_mut(livro_id) {
            None => {
                return Err(String::from_str("Livro não encontrado"));
            },
            Some(l) => l,
        };
        match livro.emprestar() {
            Err(e) => {
                proof {
                    assert(final(livro_service)@.livros =~= old(livro_service)@.livros);
                }
                return Err(e);
            },
            Ok(()) => {},
        }
        let id = self.proximo_id;
        let emprestimo = Emprestimo::novo(id, usuario_id, livro_id, data);
        let ghost ge = emprestimo;
        self.emprestimos.push(emprestimo);
        self.proximo_id = self.proximo_id + 1;
        proof {
            assert(self@.emprestimos == old(self)@.emprestimos.push(ge));
            assert forall|i: int|
                0 <= i < self@.emprestimos.len() implies (#[trigger] self@.emprestimos[i]).id
                < self@.proximo_id by {
                if i < old(self)@.emprestimos.len() {
                    assert(self@.emprestimos[i] == old(self)@.emprestimos[i]);
                } else {
                    assert(self@.emprestimos[i] == ge);
                }
            }
            assert forall|i: int, j: int|
                0 <= i < j < self@.emprestimos.len() implies self@.emprestimos[i].id
                != self@.emprestimos[j].id by {
                assert(self@.emprestimos[i] == old(self)@.emprestimos[i]);
                if j < old(self)@.emprestimos.len() {
                    assert(self@.emprestimos[j] == old(self)@.emprestimos[j]);
                } else {
                    assert(self@.emprestimos[j] == ge);
                }
            }
        }
        Ok(id)
    }

    /// The position of the loan carrying `id`, if any.
    fn find_index(&self, id: u32) -> (r: Option<usize>)
        ensures
            match r {
                Some(k) => k < self@.emprestimos.len() && self@.emprestimos[k as int].id == id,
                None => !contains_emprestimo(self@.emprestimos, id),
            },
    {
        let mut k: usize = 0;
        while k < self.emprestimos.len()
            invariant
                k <= self@.emprestimos.len(),
                self@.emprestimos.len() == self.emprestimos.len(),
                forall|i: int| 0 <= i < k ==> (#[trigger] self@.emprestimos[i]).id != id,
            decreases self.emprestimos.len() - k,
        {
            if self.emprestimos[k].id == id {
                return Some(k);
            }
            k = k + 1;
        }
        None
    }

    /// Closes a loan: the loan must exist and still be open; the book comes
    /// back available. Mirrors the order of work at the desk: the loan is
    /// marked returned first, so when the book is no longer in the catalogue
    /// the loan stays marked and only the catalogue is left untouched.
    pub fn devolver(
        &mut self,
        livro_service: &mut LivroService,
        emprestimo_id: u32,
        data: String,
    ) -> (r: Result<(), String>)
        requires
            emprestimo_service_wf(old(self)@),
            livro_service_wf(old(livro_service)@),
        ensures
            emprestimo_service_wf(final(self)@),
            livro_service_wf(final(livro_service)@),
            final(self)@.proximo_id == old(self)@.proximo_id,
            match r {
                Ok(()) => {
                    &&& contains_emprestimo(old(self)@.emprestimos, emprestimo_id)
                    &&& old(self)@.emprestimos[index_of_emprestimo(
                        old(self)@.emprestimos,
                        emprestimo_id,
                    )].data_devolucao is None
                    &&& final(self)@.emprestimos == old(self)@.emprestimos.update(
                        index_of_emprestimo(old(self)@.emprestimos, emprestimo_id),
                        (Emprestimo {
                            data_devolucao: Some(data),
                            ..old(self)@.emprestimos[index_of_emprestimo(
                                old(self)@.emprestimos,
                                emprestimo_id,
                            )]
                        }),
                    )
                    &&& contains_livro(
                        old(livro_service)@.livros,
                        old(self)@.emprestimos[index_of_emprestimo(
                            old(self)@.emprestimos,
                            emprestimo_id,
                        )].livro_id,
                    )
                    &&& final(livro_service)@.livros == old(livro_service)@.livros.update(
                        index_of_livro(
                            old(livro_service)@.livros,
                            old(self)@.emprestimos[index_of_emprestimo(
                                old(self)@.emprestimos,
                                emprestimo_id,
                            )].livro_id,
                        ),
                        (Livro {
                            disponivel: true,
                            ..old(livro_service)@.livros[index_of_livro(
                                old(livro_service)@.livros,
                                old(self)@.emprestimos[index_of_emprestimo(
                                    old(self)@.emprestimos,
                                    emprestimo_id,
                                )].livro_id,
                            )]
                        }),
                    )
                    &&& final(livro_service)@.proximo_id == old(livro_service)@.proximo_id
                },
                Err(e) => {
                    &&& if !contains_emprestimo(old(self)@.emprestimos, emprestimo_id) {
                        &&& e@ == "Empréstimo não encontrado"@
                        &&& final(self)@ == old(self)@
                        &&& final(livro_service)@ == old(livro_service)@
                    } else if old(self)@.emprestimos[index_of_emprestimo(
                        old(self)@.emprestimos,
                        emprestimo_id,
                    )].data_devolucao is Some {
                        &&& e@ == "Livro já foi devolvido"@
                        &&& final(self)@ == old(self)@
                        &&& final(livro_service)@ == old(livro_service)@
                    } else {
                        &&& !contains_livro(
                            old(livro_service)@.livros,
                            old(self)@.emprestimos[index_of_emprestimo(
                                old(self)@.emprestimos,
                                emprestimo_id,
                            )].livro_id,
                        )
                        &&& e@ == "Livro não encontrado"@
                        &&& final(self)@.emprestimos == old(self)@.emprestimos.update(
                            index_of_emprestimo(old(self)@.emprestimos, emprestimo_id),
                            (Emprestimo {
                                data_devolucao: Some(data),
                                ..old(self)@.emprestimos[index_of_emprestimo(
                                    old(self)@.emprestimos,
                                    emprestimo_id,
                                )]
                            }),
                        )
                        &&& final(livro_service)@ == old(livro_service)@
                    }
                },
            },
    {
        let k = match self.find_index(emprestimo_id) {
            None => {
                return Err(String::from_str("Empréstimo não encontrado"));
            },
            Some(k) => k,
        };
        proof {
            lemma_emprestimo_index_unique(self@.emprestimos, emprestimo_id, k as int);
        }
        if self.emprestimos[k].foi_devolvido() {
            return Err(String::from_str("Livro já foi devolvido"));
        }
        let livro_id = self.emprestimos[k].livro_id;
        let ghost pre_vec = self.emprestimos@;
        let e = &mut self.emprestimos[k];
        e.devolver(data);
        proof {
            assert forall|i: int, j: int|
                0 <= i < j < self@.emprestimos.len() implies self@.emprestimos[i].id
                != self@.emprestimos[j].id by {
                assert(pre_vec[i].id != pre_vec[j].id);
            }
        }
        let livro = match livro_service.buscar_mut(livro_id) {
            None => {
                return Err(String::from_str("Livro não encontrado"));
            },
            Some(l) => l,
        };
        livro.devolver();
        Ok(())
    }

    /// The loans still open, in the order they were made.
    pub fn listar_ativos(&self) -> (r: Vec<&Emprestimo>)
        ensures
            r.deep_view() == self@.emprestimos.filter(ativo_filter()),
    {
        let mut r: Vec<&Emprestimo> = Vec::new();
        proof {
            assert(r.deep_view() =~= self@.emprestimos.take(0).filter(ativo_filter())) by {
                reveal(Seq::filter);
                assert(self@.emprestimos.take(0) =~= Seq::<Emprestimo>::empty());
            }
        }
        let mut k: usize = 0;
        while k < self.emprestimos.len()
            invariant
                k <= self.emprestimos.len(),
                r.deep_view() == self@.emprestimos.take(k as int).filter(ativo_filter()),
            decreases self.emprestimos.len() - k,
        {
            let ghost pre = r.deep_view();
            if !self.emprestimos[k].foi_devolvido() {
                r.push(&self.emprestimos[k]);
            }
            proof {
                reveal(Seq::filter);
                assert(self@.emprestimos.take(k + 1 as int).drop_last() =~= self@.emprestimos.take(
                    k as int,
                ));
                assert(self@.emprestimos.take(k + 1 as int).last() == self@.emprestimos[k as int]);
                if ativo_filter()(self@.emprestimos[k as int]) {
                    assert(r.deep_view() =~= pre.push(self@.emprestimos[k as int]));
                } else {
                    assert(r.deep_view() =~= pre);
                }
            }
            k = k + 1;
        }
        proof {
            assert(self@.emprestimos.take(self.emprestimos.len() as int) =~= self@.emprestimos);
        }
        r
    }

    /// Every loan, in the order they were made.
    pub fn listar(&self) -> (r: Vec<&Emprestimo>)
        ensures
            r.deep_view() == self@.emprestimos,
    {
        let mut r: Vec<&Emprestimo> = Vec::new();
        let mut k: usize = 0;
        while k < self.emprestimos.len()
            invariant
                k <= self.emprestimos.len(),
                r.deep_view() == self@.emprestimos.take(k as int),
            decreases self.emprestimos.len() - k,
        {
            let ghost pre = r.deep_view();
            r.push(&self.emprestimos[k]);
            proof {
                assert(r.deep_view() =~= pre.push(self@.emprestimos[k as int]));
                assert(pre.push(self@.emprestimos[k as int]) =~= self@.emprestimos.take(
                    k + 1 as int,
                ));
            }
            k = k + 1;
        }
        proof {
            assert(self@.emprestimos.take(self.emprestimos.len() as int) =~= self@.emprestimos);
        }
        r
    }
}

} // verus!
