//! The book catalogue: owns the books, allocates their ids, and answers
//! lookups for the loan service.

use vstd::prelude::*;

use crate::livro::{livro_valido, Livro};

verus! {

/// The mathematical state of the catalogue: the books in insertion order and
/// the next id to hand out.
pub struct LivroServiceV {
    pub livros: Seq<Livro>,
    pub proximo_id: u32,
}

/// Catalogue invariant: ids pairwise distinct and below the allocator's next
/// value.
pub open spec fn livro_service_wf(s: LivroServiceV) -> bool {
    &&& s.proximo_id >= 1
    &&& forall|i: int| 0 <= i < s.livros.len() ==> (#[trigger] s.livros[i]).id < s.proximo_id
    &&& forall|i: int, j: int| 0 <= i < j < s.livros.len() ==> s.livros[i].id != s.livros[j].id
}

/// Some book in `ls` carries the id.
pub open spec fn contains_livro(ls: Seq<Livro>, id: u32) -> bool {
    exists|i: int| 0 <= i < ls.len() && ls[i].id == id
}

/// The position of the book with the id (unique under the invariant).
pub open spec fn index_of_livro(ls: Seq<Livro>, id: u32) -> int {
    choose|i: int| 0 <= i < ls.len() && ls[i].id == id
}

/// Available books, as a filter.
pub open spec fn disponivel_filter() -> spec_fn(Livro) -> bool {
    |l: Livro| l.disponivel
}

/// Under distinct ids, any position holding `id` is the position `choose`
/// picks.
pub proof fn lemma_livro_index_unique(ls: Seq<Livro>, id: u32, k: int)
    requires
        forall|i: int, j: int| 0 <= i < j < ls.len() ==> ls[i].id != ls[j].id,
        0 <= k < ls.len(),
        ls[k].id == id,
    ensures
        contains_livro(ls, id),
        index_of_livro(ls, id) == k,
{
    assert(contains_livro(ls, id));
    let i = index_of_livro(ls, id);
    if i < k {
        assert(ls[i].id != ls[k].id);
    } else if k < i {
        assert(ls[k].id != ls[i].id);
    }
}

/// Manages the books of the library.
pub struct LivroService {
    livros: Vec<Livro>,
    proximo_id: u32,
}

impl View for LivroService {
    type V = LivroServiceV;

    closed spec fn view(&self) -> LivroServiceV {
        LivroServiceV { livros: self.livros@, proximo_id: self.proximo_id }
    }
}

impl LivroService {
    /// An empty catalogue.
    pub fn novo() -> (s: LivroService)
        ensures
            s@.livros == Seq::<Livro>::empty(),
            s@.proximo_id == 1,
            livro_service_wf(s@),
    {
        let s = LivroService { livros: Vec::new(), proximo_id: 1 };
        proof {
            assert(s@.livros =~= Seq::<Livro>::empty());
        }
        s
    }

    /// Registers a book under a fresh id and returns the id; a rejected
    /// record (see `Livro::novo`) changes nothing.
    pub fn adicionar(&mut self, titulo: String, autor: String, ano: u32) -> (r: Result<u32, String>)
        requires
            livro_service_wf(old(self)@),
            old(self)@.proximo_id < u32::MAX,
        ensures
            livro_service_wf(final(self)@),
            match r {
                Ok(id) => {
                    &&& livro_valido(titulo@, autor@, ano)
                    &&& id == old(self)@.proximo_id
                    &&& final(self)@.proximo_id == old(self)@.proximo_id + 1
                    &&& final(self)@.livros.len() == old(self)@.livros.len() + 1
                    &&& final(self)@.livros.last() == (Livro {
                        id,
                        titulo: final(self)@.livros.last().titulo,
                        autor: final(self)@.livros.last().autor,
                        ano,
                        disponivel: true,
                    })
                    &&& final(self)@.livros.last().titulo@ == titulo@
                    &&& final(self)@.livros.last().autor@ == autor@
                    &&& final(self)@.livros == old(self)@.livros.push(final(self)@.livros.last())
                },
                Err(e) => {
                    &&& !livro_valido(titulo@, autor@, ano)
                    &&& final(self)@ == old(self)@
                },
            },
    {
        let id = self.proximo_id;
        let livro = match Livro::novo(id, titulo, autor, ano) {
            Ok(l) => l,
            Err(e) => {
                return Err(e);
            },
        };
        let ghost gl = livro;
        self.livros.push(livro);
        self.proximo_id = self.proximo_id + 1;
        proof {
            assert(self@.livros == old(self)@.livros.push(gl));
            assert forall|i: int|
                0 <= i < self@.livros.len() implies (#[trigger] self@.livros[i]).id
                < self@.proximo_id by {
                if i < old(self)@.livros.len() {
                    assert(self@.livros[i] == old(self)@.livros[i]);
                } else {
                    assert(self@.livros[i] == gl);
                }
            }
            assert forall|i: int, j: int|
                0 <= i < j < self@.livros.len() implies self@.livros[i].id
                != self@.livros[j].id by {
                if j < old(self)@.livros.len() {
                    assert(self@.livros[i] == old(self)@.livros[i]);
                    assert(self@.livros[j] == old(self)@.livros[j]);
                } else {
                    assert(self@.livros[i] == old(self)@.livros[i]);
                    assert(self@.livros[j] == gl);
                }
            }
        }
        Ok(id)
    }

    /// The position of the book carrying `id`, if any.
    fn find_index(&self, id: u32) -> (r: Option<usize>)
        ensures
            match r {
                Some(k) => k < self@.livros.len() && self@.livros[k as int].id == id,
                None => !contains_livro(self@.livros, id),
            },
    {
        let mut k: usize = 0;
        while k < self.livros.len()
            invariant
                k <= self@.livros.len(),
                self@.livros.len() == self.livros.len(),
                forall|i: int| 0 <= i < k ==> (#[trigger] self@.livros[i]).id != id,
            decreases self.livros.len() - k,
        {
            if self.livros[k].id == id {
                return Some(k);
            }
            k = k + 1;
        }
        None
    }

    /// The book carrying `id`, if any.
    pub fn buscar(&self, id: u32) -> (r: Option<&Livro>)
        requires
            livro_service_wf(self@),
        ensures
            match r {
                Some(l) => {
                    &&& contains_livro(self@.livros, id)
                    &&& *l == self@.livros[index_of_livro(self@.livros, id)]
                    &&& l.id == id
                },
                None => !contains_livro(self@.livros, id),
            },
    {
        match self.find_index(id) {
            None => None,
            Some(k) => {
                proof {
                    lemma_livro_index_unique(self@.livros, id, k as int);
                }
                Some(&self.livros[k])
            },
        }
    }

    /// A mutable borrow of the book carrying `id`, if any. The caller may
    /// rewrite the book through it; as long as it leaves the id alone, the
    /// catalogue invariant survives.
    pub fn buscar_mut(&mut self, id: u32) -> (r: Option<&mut Livro>)
        requires
            livro_service_wf(old(self)@),
        ensures
            match r {
                Some(m) => {
                    &&& contains_livro(old(self)@.livros, id)
                    &&& *m == old(self)@.livros[index_of_livro(old(self)@.livros, id)]
                    &&& m.id == id
                    &&& final(self)@.livros == old(self)@.livros.update(
                        index_of_livro(old(self)@.livros, id),
                        *final(m),
                    )
                    &&& final(self)@.proximo_id == old(self)@.proximo_id
                    &&& (final(m).id == id ==> livro_service_wf(final(self)@))
                },
                None => {
                    &&& !contains_livro(old(self)@.livros, id)
                    &&& final(self)@ == old(self)@
                },
            },
    {
        let k = match self.find_index(id) {
            None => {
                return None;
            },
            Some(k) => k,
        };
        proof {
            lemma_livro_index_unique(self@.livros, id, k as int);
        }
        Some(&mut self.livros[k])
    }

    /// Every book, in insertion order.
    pub fn listar(&self) -> (r: Vec<&Livro>)
        ensures
            r.deep_view() == self@.livros,
    {
        let mut r: Vec<&Livro> = Vec::new();
        let mut k: usize = 0;
        while k < self.livros.len()
            invariant
                k <= self.livros.len(),
                r.deep_view() == self@.livros.take(k as int),
            decreases self.livros.len() - k,
        {
            let ghost pre = r.deep_view();
            r.push(&self.livros[k]);
            proof {
                assert(r.deep_view() =~= pre.push(self@.livros[k as int]));
                assert(pre.push(self@.livros[k as int]) =~= self@.livros.take(k + 1 as int));
            }
            k = k + 1;
        }
        proof {
            assert(self@.livros.take(self.livros.len() as int) =~= self@.livros);
        }
        r
    }

    /// The books currently available, in insertion order.
    pub fn listar_disponiveis(&self) -> (r: Vec<&Livro>)
        ensures
            r.deep_view() == self@.livros.filter(disponivel_filter()),
    {
        let mut r: Vec<&Livro> = Vec::new();
        proof {
            assert(r.deep_view() =~= self@.livros.take(0).filter(disponivel_filter())) by {
                reveal(Seq::filter);
                assert(self@.livros.take(0) =~= Seq::<Livro>::empty());
            }
        }
        let mut k: usize = 0;
        while k < self.livros.len()
            invariant
                k <= self.livros.len(),
                r.deep_view() == self@.livros.take(k as int).filter(disponivel_filter()),
            decreases self.livros.len() - k,
        {
            let ghost pre = r.deep_view();
            if self.livros[k].disponivel {
                r.push(&self.livros[k]);
            }
            proof {
                reveal(Seq::filter);
                assert(self@.livros.take(k + 1 as int).drop_last() =~= self@.livros.take(k as int));
                assert(self@.livros.take(k + 1 as int).last() == self@.livros[k as int]);
                if disponivel_filter()(self@.livros[k as int]) {
                    assert(r.deep_view() =~= pre.push(self@.livros[k as int]));
                } else {
                    assert(r.deep_view() =~= pre);
                }
            }
            k = k + 1;
        }
        proof {
            assert(self@.livros.take(self.livros.len() as int) =~= self@.livros);
        }
        r
    }
}

} // verus!
