//! The parser: it reads lines, takes the declarations of each, and keeps the
//! value of every declared name.
use crate::failure::{FailureView, ParseFailure};
use crate::matcher::{
    declarations, identifier, lemma_declarations_are_well_formed, match_line, views, well_formed,
    Declaration, DeclarationView,
};
use crate::store::VariableStore;
use crate::value::{coerce, coerce_value, coerced, raw_text, TypeTag, ValueView, VxdValue};
use vstd::prelude::*;
use vstd::string::StringExecFns;

verus! {

/// The value that a declaration gives to its name.
pub open spec fn declared_value(declaration: DeclarationView) -> ValueView {
    coerced(declaration.type_tag, declaration.raw_value)
}

/// The mapping `store` after the declarations `found` have been taken in
/// order, each one replacing what its name had before.
pub open spec fn declare_all(
    store: Map<Seq<char>, ValueView>,
    found: Seq<DeclarationView>,
) -> Map<Seq<char>, ValueView>
    decreases found.len(),
{
    if found.len() == 0 {
        store
    } else {
        declare_all(store, found.drop_last()).insert(
            found.last().name,
            declared_value(found.last()),
        )
    }
}

/// The declarations of all the lines, line after line.
pub open spec fn line_declarations(lines: Seq<Seq<char>>) -> Seq<DeclarationView>
    decreases lines.len(),
{
    if lines.len() == 0 {
        Seq::empty()
    } else {
        line_declarations(lines.drop_last()) + declarations(lines.last())
    }
}

/// The mapping that the lines declare.
pub open spec fn parsed(lines: Seq<Seq<char>>) -> Map<Seq<char>, ValueView> {
    declare_all(Map::empty(), line_declarations(lines))
}

/// The texts of the lines that a source produced.
pub open spec fn texts(source: Seq<Result<String, String>>) -> Seq<Seq<char>> {
    source.map_values(
        |item: Result<String, String>|
            match item {
                Ok(line) => line@,
                Err(_) => Seq::empty(),
            },
    )
}

/// The item at position `at` is the first failure that the source reported.
pub open spec fn first_failure(source: Seq<Result<String, String>>, at: int) -> bool {
    &&& 0 <= at < source.len()
    &&& source[at] is Err
    &&& forall|i: int| 0 <= i < at ==> (#[trigger] source[i]) is Ok
}

/// Taking two runs of declarations one after the other is taking their
/// concatenation.
pub proof fn lemma_declare_all_concat(
    store: Map<Seq<char>, ValueView>,
    first: Seq<DeclarationView>,
    second: Seq<DeclarationView>,
)
    ensures
        declare_all(declare_all(store, first), second) == declare_all(store, first + second),
    decreases second.len(),
{
    if second.len() == 0 {
        assert(first + second =~= first);
    } else {
        assert((first + second).drop_last() =~= first + second.drop_last());
        lemma_declare_all_concat(store, first, second.drop_last());
    }
}

/// Of the declarations of one name the last decides: a declaration that no
/// later one of the same name follows gives the name its value, whatever came
/// before it.
pub proof fn lemma_last_declaration_wins(
    store: Map<Seq<char>, ValueView>,
    found: Seq<DeclarationView>,
    at: int,
)
    requires
        0 <= at < found.len(),
        forall|later: int| at < later < found.len() ==> found[later].name != found[at].name,
    ensures
        declare_all(store, found).contains_key(found[at].name),
        declare_all(store, found)[found[at].name] == declared_value(found[at]),
    decreases found.len(),
{
    if at < found.len() - 1 {
        lemma_last_declaration_wins(store, found.drop_last(), at);
    }
}

/// A name has a value after the declarations exactly if it had one before or
/// one of them declares it.
pub proof fn lemma_declared_names(
    store: Map<Seq<char>, ValueView>,
    found: Seq<DeclarationView>,
    name: Seq<char>,
)
    ensures
        declare_all(store, found).contains_key(name) <==> (store.contains_key(name) || exists|
            at: int,
        |
            0 <= at < found.len() && (#[trigger] found[at]).name == name),
    decreases found.len(),
{
    if found.len() > 0 {
        lemma_declared_names(store, found.drop_last(), name);
        if exists|at: int| 0 <= at < found.len() && (#[trigger] found[at]).name == name {
            let at = choose|at: int| 0 <= at < found.len() && (#[trigger] found[at]).name == name;
            if at < found.len() - 1 {
                assert(found.drop_last()[at].name == name);
            }
        }
        if exists|at: int|
            0 <= at < found.drop_last().len() && (#[trigger] found.drop_last()[at]).name == name {
            let at = choose|at: int|
                0 <= at < found.drop_last().len() && (#[trigger] found.drop_last()[at]).name
                    == name;
            assert(found[at].name == name);
        }
    }
}

/// A name that none of the declarations declares keeps what it had.
pub proof fn lemma_undeclared_name_keeps_value(
    store: Map<Seq<char>, ValueView>,
    found: Seq<DeclarationView>,
    name: Seq<char>,
)
    requires
        store.contains_key(name),
        forall|at: int| 0 <= at < found.len() ==> (#[trigger] found[at]).name != name,
    ensures
        declare_all(store, found).contains_key(name),
        declare_all(store, found)[name] == store[name],
    decreases found.len(),
{
    if found.len() > 0 {
        assert forall|at: int| 0 <= at < found.drop_last().len() implies (
        #[trigger] found.drop_last()[at]).name != name by {
            assert(found[at].name != name);
        }
        lemma_undeclared_name_keeps_value(store, found.drop_last(), name);
    }
}

/// Every declaration of the lines is well formed.
pub proof fn lemma_line_declarations_are_well_formed(lines: Seq<Seq<char>>)
    ensures
        forall|k: int|
            0 <= k < line_declarations(lines).len() ==> well_formed(
                #[trigger] line_declarations(lines)[k],
            ),
    decreases lines.len(),
{
    if lines.len() > 0 {
        lemma_line_declarations_are_well_formed(lines.drop_last());
        lemma_declarations_are_well_formed(lines.last(), 0);
        let before = line_declarations(lines.drop_last());
        assert forall|k: int| 0 <= k < line_declarations(lines).len() implies well_formed(
            #[trigger] line_declarations(lines)[k],
        ) by {
            if k >= before.len() {
                assert(line_declarations(lines)[k] == declarations(lines.last())[k - before.len()]);
            } else {
                assert(line_declarations(lines)[k] == before[k]);
            }
        }
    }
}

/// Every name that the lines declare is an identifier.
pub proof fn lemma_parsed_names_are_identifiers(lines: Seq<Seq<char>>, name: Seq<char>)
    requires
        parsed(lines).contains_key(name),
    ensures
        identifier(name),
{
    let found = line_declarations(lines);
    lemma_declared_names(Map::empty(), found, name);
    lemma_line_declarations_are_well_formed(lines);
    let at = choose|at: int| 0 <= at < found.len() && (#[trigger] found[at]).name == name;
    assert(well_formed(found[at]));
}

/// No lines declare nothing.
pub proof fn lemma_nothing_parsed()
    ensures
        parsed(Seq::empty()) == Map::<Seq<char>, ValueView>::empty(),
{
}

/// A parse in progress: the variables that were declared so far.
///
/// A driver takes lines and declarations until the input ends, and then hands
/// its variables over with `finish`. A failure ends it: the driver is used up,
/// and what it held is gone.
pub struct Driver {
    variables: VariableStore,
}

impl View for Driver {
    type V = Map<Seq<char>, ValueView>;

    closed spec fn view(&self) -> Map<Seq<char>, ValueView> {
        self.variables@
    }
}

impl Driver {
    /// A driver that has read nothing yet.
    pub fn new() -> (r: Self)
        ensures
            r@ == Map::<Seq<char>, ValueView>::empty(),
    {
        Driver { variables: VariableStore::new() }
    }

    /// Takes one declaration given by its parts: the value text is turned into
    /// a value of the type that `type_tag` names, and the name gets that value.
    /// A tag that is none of the nine keywords is a failure.
    pub fn declare(self, name: &str, type_tag: &str, raw_value: Option<&str>) -> (r: Result<
        Driver,
        ParseFailure,
    >)
        ensures
            match TypeTag::of(type_tag@) {
                Some(tag) => r is Ok && r->Ok_0@ == self@.insert(
                    name@,
                    coerced(tag, raw_text(raw_value)),
                ),
                None => r is Err && r->Err_0@ == FailureView::UnsupportedType(type_tag@),
            },
    {
        match coerce(type_tag, raw_value) {
            Ok(value) => {
                let mut variables = self.variables;
                variables.insert(String::from_str(name), value);
                Ok(Driver { variables })
            },
            Err(failure) => Err(failure),
        }
    }

    /// Reads one line: every declaration in it is taken, from left to right.
    /// Text that is no declaration is passed over.
    pub fn feed_line(self, line: &str) -> (r: Driver)
        ensures
            r@ == declare_all(self@, declarations(line@)),
    {
        let found = match_line(line);
        let count: usize = found.len();
        let mut variables = self.variables;
        let mut i: usize = 0;
        while i < count
            invariant
                i <= count == found@.len(),
                views(found@) == declarations(line@),
                variables@ == declare_all(self@, views(found@).take(i as int)),
            decreases count - i,
        {
            let declaration: &Declaration = &found[i];
            let value = match &declaration.raw_value {
                Some(raw) => coerce_value(declaration.type_tag, Some(raw.as_str())),
                None => coerce_value(declaration.type_tag, None),
            };
            proof {
                let taken = views(found@).take(i + 1);
                assert(taken.drop_last() =~= views(found@).take(i as int));
                assert(taken.last() == declaration@);
            }
            variables.insert(declaration.name.clone(), value);
            i += 1;
        }
        assert(views(found@).take(count as int) =~= views(found@));
        Driver { variables }
    }

    /// Ends the parse and hands over the variables.
    pub fn finish(self) -> (r: VxdeParser)
        ensures
            r@ == self@,
    {
        VxdeParser { variables: self.variables }
    }
}

/// The result of a parse: the variables that the input declared.
pub struct VxdeParser {
    variables: VariableStore,
}

impl View for VxdeParser {
    type V = Map<Seq<char>, ValueView>;

    closed spec fn view(&self) -> Map<Seq<char>, ValueView> {
        self.variables@
    }
}

impl VxdeParser {
    /// Parses what a line source produced: the lines in order, or the failure
    /// at which the source stopped.
    ///
    /// The first failure of the source abandons the parse, and nothing of what
    /// was read before it is returned. Without one, the result holds the
    /// variables that the lines declare.
    pub fn parse(source: &Vec<Result<String, String>>) -> (r: Result<VxdeParser, ParseFailure>)
        ensures
            match r {
                Ok(parser) => parser@ == parsed(texts(source@)) && forall|i: int|
                    0 <= i < source@.len() ==> (#[trigger] source@[i]) is Ok,
                Err(failure) => exists|at: int|
                    first_failure(source@, at) && failure@ == FailureView::Io(
                        source@[at]->Err_0@,
                    ),
            },
            source@.len() == 0 ==> r is Ok && r->Ok_0@ == Map::<Seq<char>, ValueView>::empty(),
    {
        let mut driver = Driver::new();
        let count: usize = source.len();
        let mut i: usize = 0;
        while i < count
            invariant
                i <= count == source@.len(),
                forall|k: int| 0 <= k < i ==> (#[trigger] source@[k]) is Ok,
                driver@ == parsed(texts(source@).take(i as int)),
            decreases count - i,
        {
            match &source[i] {
                Ok(line) => {
                    proof {
                        let read = texts(source@).take(i + 1);
                        assert(read.drop_last() =~= texts(source@).take(i as int));
                        assert(read.last() == line@);
                        lemma_declare_all_concat(
                            Map::empty(),
                            line_declarations(read.drop_last()),
                            declarations(line@),
                        );
                    }
                    driver = driver.feed_line(line.as_str());
                },
                Err(report) => {
                    assert(first_failure(source@, i as int));
                    return Err(ParseFailure::Io(report.clone()));
                },
            }
            i += 1;
        }
        assert(texts(source@).take(count as int) =~= texts(source@));
        proof {
            if count == 0 {
                assert(texts(source@) =~= Seq::<Seq<char>>::empty());
            }
        }
        Ok(driver.finish())
    }

    /// The variables that were declared.
    pub fn get_variables(&self) -> (r: &VariableStore)
        ensures
            r@ == self@,
    {
        &self.variables
    }

    /// The value of `name`, if it was declared.
    pub fn get(&self, name: &str) -> (r: Option<&VxdValue>)
        ensures
            match r {
                Some(value) => self@.contains_key(name@) && self@[name@] == value@,
                None => !self@.contains_key(name@),
            },
    {
        self.variables.get(name)
    }
}

} // verus!
