use vstd::prelude::*;
use crate::text::same_text;

verus! {

/// The paths of the nodes that are shown folded at the start: each path is
/// the names of a node's ancestors and of the node, from the top down.
pub struct FoldInfo {
    pub fold_paths: Vec<Vec<String>>,
}

/// The texts of the strings.
pub open spec fn texts(names: Seq<String>) -> Seq<Seq<char>> {
    Seq::new(names.len(), |i: int| names[i]@)
}

/// Whether `fold_path` has `len` names, and each of them is the name that
/// `path` has at its place, as far as `path` goes.
pub open spec fn folds(fold_path: Seq<Seq<char>>, path: Seq<Seq<char>>, len: int) -> bool {
    fold_path.len() == len && forall|k: int|
        0 <= k < fold_path.len() && k < path.len() ==> fold_path[k] == path[k]
}

/// The names of a row up to its first empty field.
pub open spec fn leading_names(row: Seq<Seq<char>>) -> Seq<Seq<char>>
    decreases row.len(),
{
    if row.len() == 0 || row[0].len() == 0 {
        Seq::empty()
    } else {
        seq![row[0]] + leading_names(row.skip(1))
    }
}

/// The fold paths that the rows give: of each row the names up to its
/// first empty field, and nothing of a row that begins with an empty field.
pub open spec fn paths_of_rows(rows: Seq<Seq<Seq<char>>>) -> Seq<Seq<Seq<char>>>
    decreases rows.len(),
{
    if rows.len() == 0 {
        Seq::empty()
    } else {
        let names = leading_names(rows.last());
        if names.len() > 0 {
            paths_of_rows(rows.drop_last()).push(names)
        } else {
            paths_of_rows(rows.drop_last())
        }
    }
}

/// The texts of the rows.
pub open spec fn row_texts(rows: Seq<Vec<String>>) -> Seq<Seq<Seq<char>>> {
    Seq::new(rows.len(), |i: int| texts(rows[i]@))
}

impl FoldInfo {
    /// The fold paths, as texts.
    pub open spec fn paths(&self) -> Seq<Seq<Seq<char>>> {
        row_texts(self.fold_paths@)
    }

    /// Whether the node at the end of the first `len` names of `path` is
    /// shown folded: one of the fold paths has `len` names, and they are the
    /// names of `path`.
    pub fn is_fold_path(&self, path: &Vec<String>, len: usize) -> (r: bool)
        ensures
            r == exists|i: int|
                0 <= i < self.paths().len() && folds(#[trigger] self.paths()[i], texts(path@), len as int),
    {
        let mut i: usize = 0;
        while i < self.fold_paths.len()
            invariant
                i <= self.fold_paths.len(),
                forall|j: int| 0 <= j < i ==> !folds(#[trigger] self.paths()[j], texts(path@), len as int),
            decreases self.fold_paths.len() - i,
        {
            let fold_path = &self.fold_paths[i];
            assert(self.paths()[i as int] == texts(fold_path@));
            if fold_path.len() == len {
                let mut k: usize = 0;
                let mut same: bool = true;
                while same && k < fold_path.len() && k < path.len()
                    invariant
                        k <= fold_path.len(),
                        k <= path.len(),
                        same ==> forall|j: int| 0 <= j < k ==> fold_path@[j]@ == path@[j]@,
                        !same ==> !folds(texts(fold_path@), texts(path@), len as int),
                    decreases fold_path.len() - k + if same { 1int } else { 0int },
                {
                    if same_text(fold_path[k].as_str(), path[k].as_str()) {
                        k = k + 1;
                    } else {
                        same = false;
                        assert(texts(fold_path@)[k as int] != texts(path@)[k as int]);
                    }
                }
                if same {
                    assert(folds(self.paths()[i as int], texts(path@), len as int));
                    return true;
                }
            }
            i = i + 1;
        }
        false
    }

    /// The fold paths that the rows of a table give.
    pub fn from_rows(rows: &Vec<Vec<String>>) -> (info: FoldInfo)
        ensures
            info.paths() == paths_of_rows(row_texts(rows@)),
    {
        let mut fold_paths: Vec<Vec<String>> = Vec::new();
        let mut i: usize = 0;
        assert(row_texts(rows@).take(0) =~= Seq::empty());
        assert(row_texts(fold_paths@) =~= Seq::empty());
        while i < rows.len()
            invariant
                i <= rows.len(),
                row_texts(fold_paths@) == paths_of_rows(row_texts(rows@).take(i as int)),
            decreases rows.len() - i,
        {
            let row = &rows[i];
            let ghost whole = texts(row@);
            let mut fold_path: Vec<String> = Vec::new();
            let mut k: usize = 0;
            let mut open: bool = true;
            assert(whole.skip(0) =~= whole);
            assert(texts(fold_path@) =~= Seq::empty());
            while open && k < row.len()
                invariant
                    k <= row.len(),
                    whole == texts(row@),
                    open ==> leading_names(whole) == texts(fold_path@) + leading_names(
                        whole.skip(k as int),
                    ),
                    !open ==> leading_names(whole) == texts(fold_path@),
                decreases row.len() - k + if open { 1int } else { 0int },
            {
                assert(whole.skip(k as int)[0] == row@[k as int]@);
                assert(whole.skip(k as int).skip(1) =~= whole.skip(k as int + 1));
                if row[k].as_str().is_empty() {
                    open = false;
                    assert(texts(fold_path@) + Seq::<Seq<char>>::empty() =~= texts(fold_path@));
                } else {
                    let ghost before = texts(fold_path@);
                    fold_path.push(row[k].clone());
                    assert(texts(fold_path@) =~= before + seq![row@[k as int]@]);
                    assert(before + (seq![row@[k as int]@] + leading_names(
                        whole.skip(k as int + 1),
                    )) =~= texts(fold_path@) + leading_names(whole.skip(k as int + 1)));
                    k = k + 1;
                }
            }
            assert(leading_names(whole) =~= texts(fold_path@)) by {
                if open {
                    assert(whole.skip(row.len() as int) =~= Seq::empty());
                }
            }
            proof {
                let all = row_texts(rows@);
                assert(all.take(i as int + 1).drop_last() =~= all.take(i as int));
                assert(all.take(i as int + 1).last() == whole);
            }
            if fold_path.len() > 0 {
                let ghost before = row_texts(fold_paths@);
                fold_paths.push(fold_path);
                assert(row_texts(fold_paths@) =~= before.push(leading_names(whole)));
            }
            i = i + 1;
        }
        assert(row_texts(rows@).take(rows.len() as int) =~= row_texts(rows@));
        FoldInfo { fold_paths }
    }
}

} // verus!
