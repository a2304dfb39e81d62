//! Roles from the files of a directory.

use crate::plan::role::{drift_message, role_fault, Role, RoleCatalog, RoleCatalogError};
use crate::table::{lemma_stored_lookup, lookup, stored};
use crate::text::{contains_text, ends_in, ends_with, occurs_at, same};
use crate::text_laws::{law_parts_occur, law_text_around_a_part};
use vstd::prelude::*;
use vstd::string::*;

verus! {

/// What came of reading a file of the directory.
#[derive(Debug)]
pub enum RoleSource {
    /// The directory does not tell which file comes next.
    Unlisted(String),
    /// The file cannot be read.
    Unreadable(String),
    /// What the file holds is no role.
    Malformed(String),
    /// The file holds a role.
    Parsed(Role),
}

/// A file of the directory.
#[derive(Debug)]
pub struct RoleFile {
    pub path: String,
    pub source: RoleSource,
}

/// The view of why a catalog could not be loaded.
pub enum RoleCatalogErrorView {
    Io(Seq<char>),
    Parse(Seq<char>),
}

impl View for RoleCatalogError {
    type V = RoleCatalogErrorView;

    open spec fn view(&self) -> RoleCatalogErrorView {
        match *self {
            RoleCatalogError::Io(m) => RoleCatalogErrorView::Io(m@),
            RoleCatalogError::Parse(m) => RoleCatalogErrorView::Parse(m@),
        }
    }
}

/// Whether a file of this name is to hold a role: one that ends in `.yaml` and
/// has something before that.
pub open spec fn names_role_file(name: Seq<char>) -> bool {
    ends_in(name, ".yaml"@) && name != ".yaml"@
}

/// Whether a file of this name is to hold a role.
pub fn is_role_file(name: &str) -> (r: bool)
    ensures
        r == names_role_file(name@),
{
    ends_with(name, ".yaml") && !same(name, ".yaml")
}

/// What is wrong with a file, where `roles` are there already.
pub open spec fn file_fault(roles: Seq<(Seq<char>, Role)>, file: RoleFile) -> Option<
    RoleCatalogErrorView,
> {
    match file.source {
        RoleSource::Unlisted(e) => Some(RoleCatalogErrorView::Io("dir entry error: "@ + e@)),
        RoleSource::Unreadable(e) => Some(
            RoleCatalogErrorView::Io("read "@ + file.path@ + ": "@ + e@),
        ),
        RoleSource::Malformed(e) => Some(
            RoleCatalogErrorView::Parse("parse "@ + file.path@ + ": "@ + e@),
        ),
        RoleSource::Parsed(role) => match role_fault(roles, role, file.path@) {
            Some(m) => Some(RoleCatalogErrorView::Parse(m)),
            None => None,
        },
    }
}

/// The roles that some files give, one after the other, or else what is wrong
/// with the first file that has something wrong with it.
pub open spec fn gathered(files: Seq<RoleFile>) -> Result<
    Seq<(Seq<char>, Role)>,
    RoleCatalogErrorView,
>
    decreases files.len(),
{
    if files.len() == 0 {
        Ok(Seq::empty())
    } else {
        match gathered(files.drop_last()) {
            Err(e) => Err(e),
            Ok(roles) => match file_fault(roles, files.last()) {
                Some(e) => Err(e),
                None => {
                    let role = files.last().source->Parsed_0;
                    Ok(stored(roles, role.name@, role))
                },
            },
        }
    }
}

/// Whether a file holds a role whose ladder does not begin with its model.
pub open spec fn drifts(file: RoleFile) -> bool {
    file.source is Parsed && !(file.source->Parsed_0).ladder_matches()
}

/// What is wrong with a file whose role has such a ladder.
pub open spec fn drift_fault(file: RoleFile) -> Seq<char> {
    let role = file.source->Parsed_0;
    "parse "@ + file.path@ + ": "@ + drift_message(
        role.name@,
        role.model_ladder@[0]@,
        role.model@,
    )
}

/// What is wrong with the first file whose role has such a ladder.
pub open spec fn first_drift(files: Seq<RoleFile>) -> Option<Seq<char>>
    decreases files.len(),
{
    if files.len() == 0 {
        None
    } else {
        match first_drift(files.drop_last()) {
            Some(m) => Some(m),
            None => if drifts(files.last()) {
                Some(drift_fault(files.last()))
            } else {
                None
            },
        }
    }
}

/// The roles that some files give, or else what is wrong with them. The ladders
/// are looked at once all files are read: whatever else is wrong is told first.
pub open spec fn loaded(files: Seq<RoleFile>) -> Result<
    Seq<(Seq<char>, Role)>,
    RoleCatalogErrorView,
> {
    match gathered(files) {
        Err(e) => Err(e),
        Ok(roles) => match first_drift(files) {
            Some(m) => Err(RoleCatalogErrorView::Parse(m)),
            None => Ok(roles),
        },
    }
}

/// What is wrong with a file that cannot be read as a role.
fn unusable(path: &str, start: &str, e: &str) -> (r: String)
    ensures
        r@ == start@ + path@ + ": "@ + e@,
{
    let mut m = start.to_owned();
    m.append(path);
    m.append(": ");
    m.append(e);
    m
}

proof fn lemma_first_fault_stays(files: Seq<RoleFile>, i: int)
    requires
        0 <= i <= files.len(),
        gathered(files.take(i)) is Err,
    ensures
        gathered(files) == gathered(files.take(i)),
    decreases files.len(),
{
    if i == files.len() {
        assert(files.take(i) =~= files);
    } else {
        assert(files.drop_last().take(i) =~= files.take(i));
        lemma_first_fault_stays(files.drop_last(), i);
    }
}

impl RoleCatalog {
    /// The catalog of the roles that the files of a directory hold.
    pub fn load_from_dir(files: Vec<RoleFile>) -> (r: Result<RoleCatalog, RoleCatalogError>)
        ensures
            match r {
                Ok(catalog) => loaded(files@) == Ok::<_, RoleCatalogErrorView>(catalog@),
                Err(e) => loaded(files@) == Err::<Seq<(Seq<char>, Role)>, _>(e@),
            },
    {
        let ghost all = files@;
        let mut left = files;
        let mut catalog = RoleCatalog::new();
        let mut drift: Option<String> = None;
        let ghost mut done: int = 0;
        assert(all.take(0) =~= Seq::<RoleFile>::empty());
        assert(all.skip(0) =~= all);
        while left.len() > 0
            invariant
                all == files@,
                0 <= done <= all.len(),
                left@ == all.skip(done),
                gathered(all.take(done)) == Ok::<_, RoleCatalogErrorView>(catalog@),
                match drift {
                    Some(m) => first_drift(all.take(done)) == Some(m@),
                    None => first_drift(all.take(done)) is None,
                },
            decreases left@.len(),
        {
            let file = left.remove(0);
            assert(file == all[done]);
            assert(left@ =~= all.skip(done + 1));
            assert(all.take(done + 1).drop_last() =~= all.take(done));
            assert(all.take(done + 1).last() == file);
            proof {
                if gathered(all.take(done + 1)) is Err {
                    lemma_first_fault_stays(all, done + 1);
                }
                done = done + 1;
            }
            match file.source {
                RoleSource::Unlisted(e) => {
                    let mut m = "dir entry error: ".to_owned();
                    m.append(e.as_str());
                    return Err(RoleCatalogError::Io(m));
                },
                RoleSource::Unreadable(e) => {
                    let m = unusable(file.path.as_str(), "read ", e.as_str());
                    return Err(RoleCatalogError::Io(m));
                },
                RoleSource::Malformed(e) => {
                    let m = unusable(file.path.as_str(), "parse ", e.as_str());
                    return Err(RoleCatalogError::Parse(m));
                },
                RoleSource::Parsed(role) => {
                    if drift.is_none() {
                        if let Err(e) = role.resolved_ladder() {
                            drift = Some(unusable(file.path.as_str(), "parse ", e.as_str()));
                        }
                    }
                    if let Err(e) = catalog.take_in(role, file.path.as_str()) {
                        return Err(e);
                    }
                },
            }
        }
        assert(all.take(done) =~= all) by {
            assert(all.skip(done).len() == left@.len());
        }
        if let Some(m) = drift {
            return Err(RoleCatalogError::Parse(m));
        }
        Ok(catalog)
    }
}

/// Whether a file holds a role that has a name.
pub open spec fn is_named(file: RoleFile) -> bool {
    file.source is Parsed && (file.source->Parsed_0).name@.len() > 0
}

/// Whether a file holds a role that can be in a catalog.
pub open spec fn holds_role(file: RoleFile) -> bool {
    &&& is_named(file)
    &&& (file.source->Parsed_0).ladder_matches()
}

/// The name of the role that a file holds.
pub open spec fn role_name(file: RoleFile) -> Seq<char> {
    (file.source->Parsed_0).name@
}

proof fn lemma_gathered(files: Seq<RoleFile>)
    ensures
        gathered(files) is Ok <==> {
            &&& forall|i: int| 0 <= i < files.len() ==> is_named(#[trigger] files[i])
            &&& forall|i: int, j: int|
                0 <= i < j < files.len() ==> role_name(#[trigger] files[i]) != role_name(
                    #[trigger] files[j],
                )
        },
        gathered(files) is Ok ==> {
            &&& forall|i: int|
                0 <= i < files.len() ==> lookup(
                    gathered(files)->Ok_0,
                    role_name(#[trigger] files[i]),
                ) == Some(files[i].source->Parsed_0)
            &&& forall|name: Seq<char>| #[trigger]
                lookup(gathered(files)->Ok_0, name) is Some ==> exists|i: int|
                    0 <= i < files.len() && role_name(#[trigger] files[i]) == name
        },
    decreases files.len(),
{
    if files.len() > 0 {
        let before = files.drop_last();
        let n = files.len() - 1;
        let last = files.last();
        lemma_gathered(before);
        assert(forall|i: int| 0 <= i < n ==> #[trigger] files[i] == before[i]);
        if gathered(before) is Ok {
            let roles = gathered(before)->Ok_0;
            if is_named(last) && lookup(roles, role_name(last)) is Some {
                let i = choose|i: int|
                    0 <= i < before.len() && role_name(#[trigger] before[i]) == role_name(last);
                assert(role_name(files[i]) == role_name(files[n]));
            }
            if gathered(files) is Ok {
                let role = last.source->Parsed_0;
                let now = gathered(files)->Ok_0;
                assert forall|i: int, j: int| 0 <= i < j < files.len() implies role_name(
                    #[trigger] files[i],
                ) != role_name(#[trigger] files[j]) by {
                    assert(files[i] == before[i]);
                    if j < n {
                        assert(files[j] == before[j]);
                    }
                }
                assert forall|i: int| 0 <= i < files.len() implies lookup(
                    now,
                    role_name(#[trigger] files[i]),
                ) == Some(files[i].source->Parsed_0) by {
                    lemma_stored_lookup(roles, role.name@, role, role_name(files[i]));
                    if i < n {
                        assert(files[i] == before[i]);
                    }
                }
                assert forall|name: Seq<char>| #[trigger] lookup(now, name) is Some implies exists|
                    i: int,
                |
                    0 <= i < files.len() && role_name(#[trigger] files[i]) == name by {
                    lemma_stored_lookup(roles, role.name@, role, name);
                    if name == role.name@ {
                        assert(role_name(files[n]) == name);
                    } else {
                        let i = choose|i: int|
                            0 <= i < before.len() && role_name(#[trigger] before[i]) == name;
                        assert(role_name(files[i]) == name);
                    }
                }
            }
        } else {
            if (forall|i: int| 0 <= i < files.len() ==> is_named(#[trigger] files[i])) && (forall|
                i: int,
                j: int,
            |
                0 <= i < j < files.len() ==> role_name(#[trigger] files[i]) != role_name(
                    #[trigger] files[j],
                )) {
                assert forall|i: int| 0 <= i < before.len() implies is_named(
                    #[trigger] before[i],
                ) by {
                    assert(is_named(files[i]));
                }
                assert forall|i: int, j: int| 0 <= i < j < before.len() implies role_name(
                    #[trigger] before[i],
                ) != role_name(#[trigger] before[j]) by {
                    assert(role_name(files[i]) != role_name(files[j]));
                }
            }
        }
    }
}

proof fn lemma_first_drift(files: Seq<RoleFile>)
    ensures
        match first_drift(files) {
            Some(m) => exists|i: int|
                0 <= i < files.len() && drifts(#[trigger] files[i]) && m == drift_fault(files[i])
                    && forall|j: int| 0 <= j < i ==> !drifts(#[trigger] files[j]),
            None => forall|i: int| 0 <= i < files.len() ==> !drifts(#[trigger] files[i]),
        },
    decreases files.len(),
{
    if files.len() > 0 {
        let before = files.drop_last();
        let n = files.len() - 1;
        lemma_first_drift(before);
        assert(forall|i: int| 0 <= i < n ==> #[trigger] files[i] == before[i]);
        match first_drift(before) {
            Some(m) => {
                let i = choose|i: int|
                    0 <= i < before.len() && drifts(#[trigger] before[i]) && m == drift_fault(
                        before[i],
                    ) && forall|j: int| 0 <= j < i ==> !drifts(#[trigger] before[j]);
                assert(drifts(files[i]));
                assert forall|j: int| 0 <= j < i implies !drifts(#[trigger] files[j]) by {
                    assert(!drifts(before[j]));
                }
            },
            None => {
                assert forall|j: int| 0 <= j < n implies !drifts(#[trigger] files[j]) by {
                    assert(!drifts(before[j]));
                }
                assert(drifts(files[n]) == drifts(files.last()));
            },
        }
    }
}

/// A directory can be loaded exactly where every file holds a role that can be
/// in a catalog and no two roles have the same name. The catalog then has
/// exactly these roles, each under its name.
pub proof fn law_catalog_holds_exactly_the_roles(files: Seq<RoleFile>)
    ensures
        loaded(files) is Ok <==> {
            &&& forall|i: int| 0 <= i < files.len() ==> holds_role(#[trigger] files[i])
            &&& forall|i: int, j: int|
                0 <= i < j < files.len() ==> role_name(#[trigger] files[i]) != role_name(
                    #[trigger] files[j],
                )
        },
        loaded(files) is Ok ==> {
            &&& forall|i: int|
                0 <= i < files.len() ==> lookup(
                    loaded(files)->Ok_0,
                    role_name(#[trigger] files[i]),
                ) == Some(files[i].source->Parsed_0)
            &&& forall|name: Seq<char>| #[trigger]
                lookup(loaded(files)->Ok_0, name) is Some ==> exists|i: int|
                    0 <= i < files.len() && role_name(#[trigger] files[i]) == name
        },
{
    lemma_gathered(files);
    lemma_first_drift(files);
    if loaded(files) is Ok {
        assert forall|i: int| 0 <= i < files.len() implies holds_role(#[trigger] files[i]) by {
            assert(is_named(files[i]));
            assert(!drifts(files[i]));
        }
    } else if forall|i: int| 0 <= i < files.len() ==> holds_role(#[trigger] files[i]) {
        assert forall|i: int| 0 <= i < files.len() implies is_named(#[trigger] files[i]) by {
            assert(holds_role(files[i]));
        }
        if gathered(files) is Ok {
            let i = choose|i: int| 0 <= i < files.len() && drifts(#[trigger] files[i]);
            assert(holds_role(files[i]));
        }
    }
}

/// Whether all files can be gathered, and file `i` is the first whose role has a
/// ladder that does not begin with its model.
pub open spec fn ladder_is_all_that_is_wrong(files: Seq<RoleFile>, i: int) -> bool {
    &&& gathered(files) is Ok
    &&& drifts(files[i])
    &&& forall|j: int| 0 <= j < i ==> !drifts(#[trigger] files[j])
}

proof fn lemma_names_path(start: Seq<char>, path: Seq<char>, rest: Seq<char>)
    ensures
        contains_text(start + path + rest, path),
{
    let m = start + path + rest;
    let at = start.len() as int;
    assert(m.subrange(at, at + path.len()) =~= path);
    assert(occurs_at(m, path, at));
}

/// Where the files cannot be gathered because of what one of them holds, the
/// error names its path.
proof fn lemma_fault_names_the_file(files: Seq<RoleFile>)
    ensures
        gathered(files) matches Err(RoleCatalogErrorView::Parse(m)) ==> exists|i: int|
            0 <= i < files.len() && contains_text(m, (#[trigger] files[i]).path@) && {
                &&& gathered(files.take(i)) is Ok
                &&& file_fault(gathered(files.take(i))->Ok_0, files[i]) == Some(
                    RoleCatalogErrorView::Parse(m),
                )
            },
    decreases files.len(),
{
    if files.len() > 0 {
        let before = files.drop_last();
        let n = files.len() - 1;
        if let Err(RoleCatalogErrorView::Parse(m)) = gathered(files) {
            if gathered(before) is Err {
                lemma_fault_names_the_file(before);
                let i = choose|i: int|
                    0 <= i < before.len() && contains_text(m, (#[trigger] before[i]).path@) && {
                        &&& gathered(before.take(i)) is Ok
                        &&& file_fault(gathered(before.take(i))->Ok_0, before[i]) == Some(
                            RoleCatalogErrorView::Parse(m),
                        )
                    };
                assert(files[i] == before[i]);
                assert(before.take(i) =~= files.take(i));
            } else {
                assert(files.take(n) =~= before);
                let file = files[n];
                let path = file.path@;
                match file.source {
                    RoleSource::Parsed(role) => {
                        if role.name@.len() == 0 {
                            lemma_names_path("role at "@, path, " has empty name"@);
                        } else {
                            let start = "duplicate role name '"@ + role.name@ + "' at "@;
                            lemma_names_path(start, path, Seq::empty());
                            assert(start + path + Seq::<char>::empty() =~= start + path);
                        }
                    },
                    _ => {
                        let rest = m.skip(("parse "@ + path).len() as int);
                        lemma_names_path("parse "@, path, rest);
                        assert("parse "@ + path + rest =~= m);
                    },
                }
                assert(contains_text(m, files[n].path@));
            }
        }
    }
}

/// Where a directory cannot be loaded because of what a file holds, the error
/// names the path of such a file: the first that cannot be taken in, or where
/// all can, the first whose role has a ladder that does not begin with its
/// model.
pub proof fn law_error_names_the_file(files: Seq<RoleFile>)
    ensures
        loaded(files) matches Err(RoleCatalogErrorView::Parse(m)) ==> exists|i: int|
            0 <= i < files.len() && contains_text(m, (#[trigger] files[i]).path@) && {
                ||| {
                    &&& gathered(files.take(i)) is Ok
                    &&& file_fault(gathered(files.take(i))->Ok_0, files[i]) == Some(
                        RoleCatalogErrorView::Parse(m),
                    )
                }
                ||| ladder_is_all_that_is_wrong(files, i) && m == drift_fault(files[i])
            },
{
    lemma_fault_names_the_file(files);
    lemma_first_drift(files);
    if let Err(RoleCatalogErrorView::Parse(m)) = loaded(files) {
        if gathered(files) is Ok {
            let i = choose|i: int|
                0 <= i < files.len() && drifts(#[trigger] files[i]) && m == drift_fault(files[i])
                    && forall|j: int| 0 <= j < i ==> !drifts(#[trigger] files[j]);
            let path = files[i].path@;
            let rest = m.skip(("parse "@ + path).len() as int);
            lemma_names_path("parse "@, path, rest);
            assert("parse "@ + path + rest =~= m);
            assert(ladder_is_all_that_is_wrong(files, i));
        }
    }
}

/// A file is taken for a role by the end of its name, unless that is all of it.
#[verifier::rlimit(40)]
pub proof fn law_role_files_end_in_yaml(stem: Seq<char>, name: Seq<char>)
    ensures
        stem.len() > 0 ==> names_role_file(stem + ".yaml"@),
        !names_role_file(".yaml"@),
        names_role_file(name) ==> exists|s: Seq<char>| s.len() > 0 && name == #[trigger] (s
            + ".yaml"@),
{
    law_parts_occur(stem, ".yaml"@, Seq::empty());
    if stem.len() > 0 {
        assert((stem + ".yaml"@).len() != ".yaml"@.len());
    }
    if names_role_file(name) {
        let k = name.len() - ".yaml"@.len();
        law_text_around_a_part(name, ".yaml"@, k);
        let s = name.take(k);
        assert(name.skip(k + ".yaml"@.len()) =~= Seq::<char>::empty());
        assert(s + ".yaml"@ =~= name);
        if s.len() == 0 {
            assert(name =~= ".yaml"@);
        }
        assert(name == s + ".yaml"@);
    }
}

} // verus!
