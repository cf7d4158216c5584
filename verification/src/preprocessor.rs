//! The preprocessor: from the files of the catalog directory to a store, and
//! from the chapters of a book to the chapters with every tag replaced.

use crate::catalog::{
    catalog_name, compiled, with_file, CatalogModel, CatalogStore, StoreModel,
};
use crate::error::{BuildError, CatalogError, RewriteError, RunError};
use crate::files::{collect_files, files_among, Node, SourceFile};
use crate::rewrite::{rewrite_text, rewritten};
use vstd::prelude::*;

verus! {

/// A file of the catalog directory with what it contains.
#[derive(Debug, PartialEq, Eq)]
pub struct ResourceFile {
    pub name: String,
    pub source: String,
}

/// The store that `files` build, added in order, or the first file that is
/// refused.
pub open spec fn built(files: Seq<ResourceFile>) -> Result<StoreModel, BuildError>
    decreases files.len(),
{
    if files.len() == 0 {
        Ok(StoreModel::empty())
    } else {
        match built(files.drop_last()) {
            Err(error) => Err(error),
            Ok(store) => match with_file(store, files.last().name@, files.last().source@) {
                Ok(grown) => Ok(grown),
                Err(error) => Err(BuildError { file: (files.len() - 1) as usize, error }),
            },
        }
    }
}

/// Once the first `upto` files fail to build a store, so does any longer run
/// of files, and with the same fault.
pub proof fn lemma_built_fails(files: Seq<ResourceFile>, upto: int)
    requires
        0 <= upto <= files.len(),
        built(files.take(upto)) is Err,
    ensures
        built(files) == built(files.take(upto)),
    decreases files.len() - upto,
{
    if upto == files.len() {
        assert(files.take(upto) =~= files);
    } else {
        assert(files.take(upto + 1).drop_last() =~= files.take(upto));
        lemma_built_fails(files, upto + 1);
    }
}

/// A store that was built holds a catalog for each resource file among
/// `files`, under the file's catalog name and compiled from what the file
/// contains, and holds no other catalog; no two of the resource files share a
/// catalog name.
pub proof fn lemma_built_holds_each_resource(files: Seq<ResourceFile>)
    requires
        built(files) is Ok,
    ensures
        forall|name: Seq<char>|
            built(files)->Ok_0.dom().contains(name) <==> exists|i: int|
                0 <= i < files.len() && catalog_name((#[trigger] files[i]).name@) == Some(name),
        forall|i: int|
            0 <= i < files.len() && catalog_name((#[trigger] files[i]).name@) is Some ==> compiled(
                files[i].source@,
            ) == Ok::<CatalogModel, CatalogError>(
                built(files)->Ok_0[catalog_name(files[i].name@)->Some_0],
            ),
        forall|i: int, j: int|
            0 <= i < j < files.len() && catalog_name((#[trigger] files[i]).name@) is Some
                ==> catalog_name(files[i].name@) != catalog_name((#[trigger] files[j]).name@),
    decreases files.len(),
{
    if files.len() > 0 {
        let front = files.drop_last();
        let last = files.last();
        let n = files.len() - 1;
        lemma_built_holds_each_resource(front);
        let before = built(front)->Ok_0;
        let after = built(files)->Ok_0;
        assert forall|i: int| 0 <= i < n implies front[i] == files[i] by {}
        assert forall|name: Seq<char>| after.dom().contains(name) <==> exists|i: int|
            0 <= i < files.len() && catalog_name((#[trigger] files[i]).name@) == Some(
                name,
            ) by {
            if before.dom().contains(name) {
                let i = choose|i: int|
                    0 <= i < front.len() && catalog_name((#[trigger] front[i]).name@) == Some(name);
                assert(files[i] == front[i]);
            }
            if catalog_name(last.name@) == Some(name) {
                assert(files[n] == last);
            }
            if exists|i: int|
                0 <= i < files.len() && catalog_name((#[trigger] files[i]).name@) == Some(name) {
                let i = choose|i: int|
                    0 <= i < files.len() && catalog_name((#[trigger] files[i]).name@) == Some(name);
                if i < n {
                    assert(front[i] == files[i]);
                }
            }
        }
        assert forall|i: int|
            0 <= i < files.len() && catalog_name((#[trigger] files[i]).name@) is Some implies compiled(
            files[i].source@,
        ) == Ok::<CatalogModel, CatalogError>(after[catalog_name(files[i].name@)->Some_0]) by {
            if i < n {
                assert(front[i] == files[i]);
            }
        }
        assert forall|i: int, j: int|
            0 <= i < j < files.len() && catalog_name((#[trigger] files[i]).name@) is Some implies catalog_name(
            files[i].name@,
        ) != catalog_name((#[trigger] files[j]).name@) by {
            assert(front[i] == files[i]);
            if j < n {
                assert(front[j] == files[j]);
            }
        }
    }
}

/// The preprocessor that replaces `{{#fluent ...}}` tags.
#[derive(Clone, Copy, Debug, PartialEq, Eq, Structural)]
pub struct FluentPreprocessor;

impl FluentPreprocessor {
    /// The preprocessor. It holds no state: the store is handed to `run`.
    pub fn new() -> (made: Self)
        ensures
            made == FluentPreprocessor,
    {
        FluentPreprocessor
    }

    /// The name that the preprocessor goes by in a book's configuration.
    pub fn name(&self) -> (name: &'static str)
        ensures
            name@ == seq!['f', 'l', 'u', 'e', 'n', 't'],
    {
        let name = "fluent";
        proof {
            reveal_strlit("fluent");
            assert(name@ =~= seq!['f', 'l', 'u', 'e', 'n', 't']);
        }
        name
    }

    /// Every renderer is supported.
    pub fn supports_renderer(&self, renderer: &str) -> (supported: bool)
        ensures
            supported,
    {
        true
    }

    /// The files below a directory with the entries `entries`, depth first.
    pub fn visit_dir(entries: &Vec<Node>) -> (files: Vec<SourceFile>)
        ensures
            files@ == files_among(entries@),
    {
        collect_files(entries)
    }

    /// Builds the store from the files of the catalog directory. Files that are
    /// no resource files are passed over. The first file that is refused ends
    /// the build.
    pub fn build_fluent_dic(files: Vec<ResourceFile>) -> (store: Result<CatalogStore, BuildError>)
        ensures
            match store {
                Ok(store) => built(files@) == Ok::<StoreModel, BuildError>(store@),
                Err(error) => built(files@) == Err::<StoreModel, BuildError>(error),
            },
    {
        let mut store = CatalogStore::new();
        let ghost all = files@;
        let total = files.len();
        let mut index: usize = 0;
        assert(all.take(0) =~= Seq::<ResourceFile>::empty());
        for file in it: files
            invariant
                it.seq() == all,
                all.len() == total,
                index == it.index(),
                built(all.take(index as int)) == Ok::<StoreModel, BuildError>(store@),
        {
            let ghost upto = all.take(index + 1);
            assert(upto.drop_last() =~= all.take(index as int));
            assert(upto.last() == file);
            match store.add_file(file.name.as_str(), file.source) {
                Ok(_) => {},
                Err(error) => {
                    proof {
                        lemma_built_fails(all, index + 1);
                    }
                    return Err(BuildError { file: index, error });
                },
            }
            index += 1;
        }
        assert(all.take(index as int) =~= all);
        Ok(store)
    }

    /// Replaces every tag in every chapter. The first chapter with a faulty
    /// tag ends the run, and nothing is handed out.
    pub fn run(&self, store: &CatalogStore, chapters: &Vec<String>) -> (done: Result<
        Vec<String>,
        RunError,
    >)
        ensures
            match done {
                Ok(out) => out@.len() == chapters@.len() && forall|i: int|
                    0 <= i < chapters@.len() ==> rewritten((#[trigger] chapters@[i])@, store@) == Ok::<
                        Seq<char>,
                        RewriteError,
                    >(out@[i]@),
                Err(failure) => failure.chapter < chapters@.len() && rewritten(
                    chapters@[failure.chapter as int]@,
                    store@,
                ) == Err::<Seq<char>, RewriteError>(failure.error) && forall|i: int|
                    0 <= i < failure.chapter ==> rewritten((#[trigger] chapters@[i])@, store@) is Ok,
            },
    {
        let mut out: Vec<String> = Vec::new();
        let mut i: usize = 0;
        while i < chapters.len()
            invariant
                i <= chapters@.len(),
                out@.len() == i,
                forall|k: int|
                    0 <= k < i ==> rewritten((#[trigger] chapters@[k])@, store@) == Ok::<
                        Seq<char>,
                        RewriteError,
                    >(out@[k]@),
            decreases chapters@.len() - i,
        {
            match rewrite_text(chapters[i].as_str(), store) {
                Ok(text) => {
                    out.push(text);
                },
                Err(error) => {
                    return Err(RunError { chapter: i, error });
                },
            }
            i += 1;
        }
        Ok(out)
    }
}

} // verus!
