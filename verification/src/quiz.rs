//! Quiz data model and the validating part of the loader.
//!
//! A quiz is an ordered list of categories, each an ordered list of clues.
//! Category order fixes the board column, clue order the value tier (row),
//! and a single board index `k = column * rows + row` names each clue; that
//! mapping is a bijection between grid positions and `[0, cols * rows)`.
//!
//! Reading and parsing the quiz document happens outside this library; the
//! parsed pieces are handed to [`Quiz::new`], which enforces the schema:
//! at least one category, at least one tier, every category named, and
//! exactly one clue per tier in every category.

use vstd::prelude::*;

verus! {

use vstd::arithmetic::div_mod::{
    lemma_fundamental_div_mod, lemma_fundamental_div_mod_converse,
    lemma_mod_division_less_than_divisor, lemma_multiply_divide_lt,
};
use vstd::arithmetic::mul::{lemma_mul_inequality, lemma_mul_is_commutative};
use vstd::string::StrSliceExecFns;

/// One clue: the text revealed when its tile is selected.
pub struct Clue {
    pub text: String,
}

/// One category: a named column of clues. The order of `clues` fixes each
/// clue's value tier.
pub struct Category {
    pub name: String,
    pub clues: Vec<Clue>,
}

/// A loaded quiz: optional name and author, and the ordered categories that
/// become the board's columns.
pub struct Quiz {
    pub name: Option<String>,
    pub author: Option<String>,
    pub categories: Vec<Category>,
}

/// Why a parsed quiz document was rejected.
#[derive(Clone, Copy, PartialEq, Eq, Structural, Debug)]
pub enum LoadError {
    /// The board would have no value tiers.
    NoClueTiers,
    /// The document holds no categories.
    NoCategories,
    /// The category at `index` has an empty name.
    UnnamedCategory { index: usize },
    /// The category at `index` holds `found` clues instead of `expected`.
    ClueCountMismatch { index: usize, found: usize, expected: usize },
}

impl LoadError {
    /// What `message` returns for each variant.
    pub open spec fn spec_message(self) -> Seq<char> {
        match self {
            LoadError::NoClueTiers => "quiz document declares no value tiers"@,
            LoadError::NoCategories => "quiz document holds no categories"@,
            LoadError::UnnamedCategory { .. } => "a category is missing its name"@,
            LoadError::ClueCountMismatch { .. } => "a category has the wrong number of clues"@,
        }
    }

    /// A short description of the failure, for the startup error report.
    pub fn message(&self) -> (m: &'static str)
        ensures
            m@ == self.spec_message(),
    {
        match self {
            LoadError::NoClueTiers => "quiz document declares no value tiers",
            LoadError::NoCategories => "quiz document holds no categories",
            LoadError::UnnamedCategory { .. } => "a category is missing its name",
            LoadError::ClueCountMismatch { .. } => "a category has the wrong number of clues",
        }
    }
}

/// Whether `cat` fits a board with `rows` value tiers: it is named and holds
/// one clue per tier.
pub open spec fn category_ok(cat: Category, rows: int) -> bool {
    cat.name@.len() >= 1 && cat.clues@.len() == rows
}

impl Quiz {
    /// Number of board columns: one per category.
    pub open spec fn spec_cols(self) -> int {
        self.categories@.len() as int
    }

    /// Number of value tiers: the clue count of the first category.
    pub open spec fn spec_rows(self) -> int {
        self.categories@[0].clues@.len() as int
    }

    /// How many clues the whole board holds.
    pub open spec fn spec_clue_count(self) -> int {
        self.spec_cols() * self.spec_rows()
    }

    /// The text of the clue at board index `k`, under the mapping
    /// `k == column * rows + row`.
    pub open spec fn spec_clue(self, k: int) -> Seq<char>
        recommends
            self.wf(),
            0 <= k < self.spec_clue_count(),
    {
        self.categories@[k / self.spec_rows()].clues@[k % self.spec_rows()].text@
    }

    /// A quiz the board can be built from: at least one category and one
    /// tier, every category named and holding one clue per tier.
    pub open spec fn wf(self) -> bool {
        &&& self.spec_cols() >= 1
        &&& self.spec_rows() >= 1
        &&& forall|c: int|
            0 <= c < self.spec_cols() ==> category_ok(
                #[trigger] self.categories@[c],
                self.spec_rows(),
            )
    }

    /// Validating constructor. Succeeds exactly when the parsed document
    /// meets the schema: a positive tier count, at least one category, and
    /// every category named with one clue per tier. On failure it reports the
    /// first offense, scanning categories in order and checking each
    /// category's name before its clue count.
    pub fn new(
        name: Option<String>,
        author: Option<String>,
        categories: Vec<Category>,
        rows_per_category: usize,
    ) -> (r: Result<Quiz, LoadError>)
        ensures
            r is Ok <==> {
                &&& rows_per_category >= 1
                &&& categories@.len() >= 1
                &&& forall|c: int|
                    0 <= c < categories@.len() ==> category_ok(
                        #[trigger] categories@[c],
                        rows_per_category as int,
                    )
            },
            r matches Ok(q) ==> {
                &&& q.name == name
                &&& q.author == author
                &&& q.categories == categories
                &&& q.wf()
                &&& q.spec_rows() == rows_per_category
            },
            r == Err::<Quiz, LoadError>(LoadError::NoClueTiers) <==> rows_per_category == 0,
            r == Err::<Quiz, LoadError>(LoadError::NoCategories) <==> (rows_per_category >= 1
                && categories@.len() == 0),
            r matches Err(LoadError::UnnamedCategory { index }) ==> {
                &&& index < categories@.len()
                &&& categories@[index as int].name@.len() == 0
                &&& forall|j: int|
                    0 <= j < index ==> category_ok(
                        #[trigger] categories@[j],
                        rows_per_category as int,
                    )
            },
            r matches Err(LoadError::ClueCountMismatch { index, found, expected }) ==> {
                &&& expected == rows_per_category
                &&& index < categories@.len()
                &&& categories@[index as int].name@.len() >= 1
                &&& found == categories@[index as int].clues@.len()
                &&& found != rows_per_category
                &&& forall|j: int|
                    0 <= j < index ==> category_ok(
                        #[trigger] categories@[j],
                        rows_per_category as int,
                    )
            },
    {
        if rows_per_category == 0 {
            return Err(LoadError::NoClueTiers);
        }
        if categories.len() == 0 {
            return Err(LoadError::NoCategories);
        }
        let mut c: usize = 0;
        while c < categories.len()
            invariant
                rows_per_category >= 1,
                categories@.len() >= 1,
                c <= categories@.len(),
                forall|j: int|
                    0 <= j < c ==> category_ok(
                        #[trigger] categories@[j],
                        rows_per_category as int,
                    ),
            decreases categories@.len() - c,
        {
            if categories[c].name.as_str().unicode_len() == 0 {
                return Err(LoadError::UnnamedCategory { index: c });
            }
            let found = categories[c].clues.len();
            if found != rows_per_category {
                return Err(
                    LoadError::ClueCountMismatch { index: c, found, expected: rows_per_category },
                );
            }
            c = c + 1;
        }
        Ok(Quiz { name, author, categories })
    }

    /// Number of board columns.
    pub fn cols(&self) -> (n: usize)
        ensures
            n == self.spec_cols(),
    {
        self.categories.len()
    }

    /// Number of value tiers.
    pub fn rows(&self) -> (n: usize)
        requires
            self.spec_cols() >= 1,
        ensures
            n == self.spec_rows(),
    {
        self.categories[0].clues.len()
    }

    /// The clue text at board index `index = column * rows + row`.
    pub fn get_clue(&self, index: usize) -> (r: &str)
        requires
            self.wf(),
            index < self.spec_clue_count(),
        ensures
            r@ == self.spec_clue(index as int),
    {
        let rows = self.categories[0].clues.len();
        proof {
            lemma_mul_is_commutative(rows as int, self.spec_cols());
            lemma_multiply_divide_lt(index as int, rows as int, self.spec_cols());
            lemma_mod_division_less_than_divisor(index as int, rows as int);
        }
        let c = index / rows;
        let r = index % rows;
        self.categories[c].clues[r].text.as_str()
    }
}

/// The mapping `(column, row) -> column * rows + row` is a bijection between
/// the grid positions of a `cols` by `rows` board and the board indices
/// `[0, cols * rows)`: every position lands inside that range, no two
/// positions share an index, and every index decodes back to its position by
/// division and remainder.
pub proof fn lemma_clue_index_bijection(cols: int, rows: int)
    requires
        cols >= 1,
        rows >= 1,
    ensures
        forall|c: int, r: int|
            0 <= c < cols && 0 <= r < rows ==> 0 <= #[trigger] (c * rows + r) < cols * rows,
        forall|c1: int, r1: int, c2: int, r2: int|
            0 <= c1 < cols && 0 <= r1 < rows && 0 <= c2 < cols && 0 <= r2 < rows && #[trigger] (c1
                * rows + r1) == #[trigger] (c2 * rows + r2) ==> c1 == c2 && r1 == r2,
        forall|k: int|
            0 <= k < cols * rows ==> {
                &&& 0 <= #[trigger] (k / rows) < cols
                &&& 0 <= k % rows < rows
                &&& (k / rows) * rows + (k % rows) == k
            },
{
    assert forall|c: int, r: int| 0 <= c < cols && 0 <= r < rows implies 0 <= #[trigger] (c * rows
        + r) < cols * rows by {
        lemma_mul_inequality(c + 1, cols, rows);
        assert(c * rows + r < (c + 1) * rows) by (nonlinear_arith)
            requires
                r < rows,
        ;
    }
    assert forall|c1: int, r1: int, c2: int, r2: int|
        0 <= c1 < cols && 0 <= r1 < rows && 0 <= c2 < cols && 0 <= r2 < rows && #[trigger] (c1
            * rows + r1) == #[trigger] (c2 * rows + r2) implies c1 == c2 && r1 == r2 by {
        lemma_fundamental_div_mod_converse(c1 * rows + r1, rows, c1, r1);
        lemma_fundamental_div_mod_converse(c2 * rows + r2, rows, c2, r2);
    }
    assert forall|k: int| 0 <= k < cols * rows implies {
        &&& 0 <= #[trigger] (k / rows) < cols
        &&& 0 <= k % rows < rows
        &&& (k / rows) * rows + (k % rows) == k
    } by {
        lemma_mul_is_commutative(rows, cols);
        lemma_multiply_divide_lt(k, rows, cols);
        lemma_mod_division_less_than_divisor(k, rows);
        lemma_fundamental_div_mod(k, rows);
        lemma_mul_is_commutative(rows, k / rows);
    }
}

} // verus!
