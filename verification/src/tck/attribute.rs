//! Which suites an attribute asks for, and what the tests are called that run them.
use crate::text::{after_first, contains_char, first_char, strip_prefix, text_eq, trim};
use vstd::prelude::*;
use vstd::string::*;

verus! {

use crate::text::{string_views, trimmed};

/// An item of an attribute.
#[derive(Debug, Clone, PartialEq, Eq)]
pub enum AttributeMeta {
    /// A path; with its name, if it is a single identifier.
    Path(Option<String>),
    /// A path with a list behind it; with the name of the path, if it is a single identifier.
    List(Option<String>),
    /// A path with a value.
    NameValue,
}

/// The contents of an item.
pub enum AttributeMetaView {
    /// A path.
    Path(Option<Seq<char>>),
    /// A path with a list.
    List(Option<Seq<char>>),
    /// A path with a value.
    NameValue,
}

/// The contents of a name.
pub open spec fn name_view(name: Option<String>) -> Option<Seq<char>> {
    match name {
        Some(text) => Some(text@),
        None => None,
    }
}

impl View for AttributeMeta {
    type V = AttributeMetaView;

    open spec fn view(&self) -> AttributeMetaView {
        match self {
            AttributeMeta::Path(name) => AttributeMetaView::Path(name_view(*name)),
            AttributeMeta::List(name) => AttributeMetaView::List(name_view(*name)),
            AttributeMeta::NameValue => AttributeMetaView::NameValue,
        }
    }
}

/// The contents of a list of items.
pub open spec fn meta_views(list: Seq<AttributeMeta>) -> Seq<AttributeMetaView> {
    Seq::new(list.len(), |i: int| list[i]@)
}

/// How many brackets a text opens.
pub open spec fn openings(text: Seq<char>) -> nat
    decreases text.len(),
{
    if text.len() == 0 {
        0
    } else {
        openings(text.drop_last()) + (if opens(text.last()) {
            1nat
        } else {
            0nat
        })
    }
}

/// Whether a character opens a bracket.
pub open spec fn opens(c: char) -> bool {
    c == '(' || c == '[' || c == '{'
}

/// The most brackets that an attribute may open.
pub const MAX_OPENINGS: usize = 32;

/// The most characters that an attribute with a value may have.
pub const MAX_VALUED: usize = 64;

/// Whether reading a text nests only so far: it opens few brackets, and is short if it may hold an
/// expression, which only stands behind a `=`. `syn` reads brackets and expressions by recursion,
/// so deeper ones could use up the stack.
pub open spec fn shallow(text: Seq<char>) -> bool {
    &&& openings(text) <= MAX_OPENINGS
    &&& text.contains('=') ==> text.len() <= MAX_VALUED
}

/// Whether reading a text nests only so far. Every attribute that asks for suites does: it opens one
/// bracket and has no value.
pub fn is_shallow(text: &str) -> (r: bool)
    ensures
        r == shallow(text@),
{
    let mut x: &str = text;
    let mut opened: usize = 0;
    let mut count: usize = 0;
    let ghost mut n: int = 0;
    assert(text@.skip(0) =~= text@);
    loop
        invariant
            0 <= n <= text@.len(),
            x@ == text@.skip(n),
            opened == (if openings(text@.take(n)) <= MAX_OPENINGS {
                openings(text@.take(n)) as int
            } else {
                MAX_OPENINGS + 1
            }),
            count == (if n <= MAX_VALUED {
                n
            } else {
                MAX_VALUED + 1
            }),
        ensures
            n == text@.len(),
        decreases x@.len(),
    {
        let c: char = match first_char(x) {
            Some(c) => c,
            None => {
                break;
            },
        };
        if (c == '(' || c == '[' || c == '{') && opened <= MAX_OPENINGS {
            opened = opened + 1;
        }
        if count <= MAX_VALUED {
            count = count + 1;
        }
        x = after_first(x);
        proof {
            assert(x@ =~= text@.skip(n + 1));
            assert(text@.take(n + 1).drop_last() =~= text@.take(n));
            n = n + 1;
        }
    }
    assert(text@.take(n) =~= text@);
    opened <= MAX_OPENINGS && (count <= MAX_VALUED || !contains_char(text, '='))
}

/// Whether `syn::parse_str` can give this for a text: an item, or the words of an error. Inside the
/// compiler another lexer reads the text than outside, so it can give more than one thing.
pub uninterp spec fn reads_as_meta(
    text: Seq<char>,
    meta: Result<AttributeMetaView, Seq<char>>,
) -> bool;

/// Whether `syn::MetaList::parse_args_with` can give this for the list that a text is: items, or the
/// words of an error.
pub uninterp spec fn reads_as_items(
    text: Seq<char>,
    items: Result<Seq<AttributeMetaView>, Seq<char>>,
) -> bool;

/// The contents of what an item was read as.
pub open spec fn meta_reading(r: Result<AttributeMeta, String>) -> Result<
    AttributeMetaView,
    Seq<char>,
> {
    match r {
        Ok(meta) => Ok(meta@),
        Err(words) => Err(words@),
    }
}

/// The contents of what a list of items was read as.
pub open spec fn items_reading(r: Result<Vec<AttributeMeta>, String>) -> Result<
    Seq<AttributeMetaView>,
    Seq<char>,
> {
    match r {
        Ok(items) => Ok(meta_views(items@)),
        Err(words) => Err(words@),
    }
}

/// Calls `syn::parse_str` for a `syn::Meta`. Taken on trust: what comes back is something that it can
/// give for this text. What that is is not stated.
#[verifier::external_body]
fn parse_meta(text: &str) -> (r: Result<AttributeMeta, String>)
    requires
        shallow(text@),
    ensures
        reads_as_meta(text@, meta_reading(r)),
{
    match syn::parse_str::<syn::Meta>(text) {
        Ok(syn::Meta::Path(path)) => Ok(AttributeMeta::Path(
            path.get_ident().map(ToString::to_string),
        )),
        Ok(syn::Meta::List(list)) => Ok(AttributeMeta::List(
            list.path.get_ident().map(ToString::to_string),
        )),
        Ok(syn::Meta::NameValue(_)) => Ok(AttributeMeta::NameValue),
        Err(e) => Err(e.to_string()),
    }
}

/// Calls `syn::MetaList::parse_args_with`, for items that are separated by commas, on the
/// `syn::MetaList` that `syn::parse_str` makes of a text. Taken on trust: what comes back is something
/// that they can give for this text, the words of an error of either included.
#[verifier::external_body]
fn parse_items(text: &str) -> (r: Result<Vec<AttributeMeta>, String>)
    requires
        shallow(text@),
    ensures
        reads_as_items(text@, items_reading(r)),
{
    let parser = syn::punctuated::Punctuated::<syn::Meta, syn::token::Comma>::parse_terminated;
    let list = syn::parse_str::<syn::MetaList>(text).map_err(|e| e.to_string())?;
    let items = list.parse_args_with(parser).map_err(|e| e.to_string())?;
    let convert = |item: syn::Meta| match item {
        syn::Meta::Path(p) => AttributeMeta::Path(p.get_ident().map(ToString::to_string)),
        syn::Meta::List(l) => AttributeMeta::List(l.path.get_ident().map(ToString::to_string)),
        syn::Meta::NameValue(_) => AttributeMeta::NameValue,
    };
    Ok(items.into_iter().map(convert).collect())
}

/// Why an attribute asks for no suites.
#[derive(Debug, Clone, PartialEq, Eq)]
pub enum SuitesError {
    /// It cannot be read.
    Syntax(String),
    /// A suite is a path of several identifiers.
    NotIdentifier,
    /// A suite is more than a path.
    NotPath,
    /// It does not begin with `suites`.
    Unsupported,
}

/// The contents of such an error.
pub enum SuitesErrorView {
    /// It cannot be read, in these words.
    Syntax(Seq<char>),
    /// A suite is a path of several identifiers.
    NotIdentifier,
    /// A suite is more than a path.
    NotPath,
    /// It does not begin with `suites`.
    Unsupported,
}

impl View for SuitesError {
    type V = SuitesErrorView;

    open spec fn view(&self) -> SuitesErrorView {
        match self {
            SuitesError::Syntax(words) => SuitesErrorView::Syntax(words@),
            SuitesError::NotIdentifier => SuitesErrorView::NotIdentifier,
            SuitesError::NotPath => SuitesErrorView::NotPath,
            SuitesError::Unsupported => SuitesErrorView::Unsupported,
        }
    }
}

impl SuitesError {
    /// What the error means, in words.
    pub open spec fn text(&self) -> Seq<char> {
        match self {
            SuitesError::Syntax(words) => words@,
            SuitesError::NotIdentifier => "suite 需为标识符"@,
            SuitesError::NotPath => "suites(...) 仅接受标识符"@,
            SuitesError::Unsupported => "spark_tck 属性仅支持 suites(...)"@,
        }
    }

    /// What the error means, in words.
    pub fn message(&self) -> (r: &str)
        ensures
            r@ == self.text(),
    {
        match self {
            SuitesError::Syntax(words) => words.as_str(),
            SuitesError::NotIdentifier => "suite 需为标识符",
            SuitesError::NotPath => "suites(...) 仅接受标识符",
            SuitesError::Unsupported => "spark_tck 属性仅支持 suites(...)",
        }
    }
}

/// The suites that are run if none is named.
pub open spec fn default_suites() -> Seq<Seq<char>> {
    seq![
        "backpressure"@,
        "cancellation"@,
        "errors"@,
        "state_machine"@,
        "hot_swap"@,
        "hot_reload"@,
        "observability"@,
    ]
}

/// The suites that are run if none is named.
pub fn default_suite_idents() -> (r: Vec<String>)
    ensures
        string_views(r@) == default_suites(),
{
    let mut list: Vec<String> = Vec::new();
    list.push("backpressure".to_owned());
    list.push("cancellation".to_owned());
    list.push("errors".to_owned());
    list.push("state_machine".to_owned());
    list.push("hot_swap".to_owned());
    list.push("hot_reload".to_owned());
    list.push("observability".to_owned());
    assert(string_views(list@) =~= default_suites());
    list
}

/// What an attribute asks for.
#[derive(Debug, Clone, PartialEq, Eq)]
pub enum Request {
    /// The default suites.
    Defaults,
    /// The suites in its list.
    Listed,
    /// Something else.
    Unsupported,
}

/// Whether a name is `suites`.
pub open spec fn is_suites(name: Option<Seq<char>>) -> bool {
    name == Some("suites"@)
}

/// What an item asks for: `suites` alone asks for the defaults, with a list for what is listed.
pub fn request_of(meta: &AttributeMeta) -> (r: Request)
    ensures
        match meta@ {
            AttributeMetaView::Path(name) => if is_suites(name) {
                r is Defaults
            } else {
                r is Unsupported
            },
            AttributeMetaView::List(name) => if is_suites(name) {
                r is Listed
            } else {
                r is Unsupported
            },
            AttributeMetaView::NameValue => r is Unsupported,
        },
{
    match meta {
        AttributeMeta::Path(Some(name)) => {
            if text_eq(name.as_str(), "suites") {
                Request::Defaults
            } else {
                Request::Unsupported
            }
        },
        AttributeMeta::List(Some(name)) => {
            if text_eq(name.as_str(), "suites") {
                Request::Listed
            } else {
                Request::Unsupported
            }
        },
        _ => Request::Unsupported,
    }
}

/// The name of a suite.
pub open spec fn suite_name_of(meta: AttributeMetaView) -> Result<Seq<char>, SuitesErrorView> {
    match meta {
        AttributeMetaView::Path(Some(name)) => Ok(name),
        AttributeMetaView::Path(None) => Err(SuitesErrorView::NotIdentifier),
        _ => Err(SuitesErrorView::NotPath),
    }
}

/// Takes the name of a suite out of an item of the list.
pub fn suite_name(meta: &AttributeMeta) -> (r: Result<String, SuitesError>)
    ensures
        match r {
            Ok(name) => suite_name_of(meta@) == Ok::<Seq<char>, SuitesErrorView>(name@),
            Err(e) => suite_name_of(meta@) == Err::<Seq<char>, SuitesErrorView>(e@),
        },
{
    match meta {
        AttributeMeta::Path(Some(name)) => Ok(name.clone()),
        AttributeMeta::Path(None) => Err(SuitesError::NotIdentifier),
        _ => Err(SuitesError::NotPath),
    }
}

/// The suites that items name, or the first error.
pub open spec fn named_suites(items: Seq<AttributeMetaView>) -> Result<
    Seq<Seq<char>>,
    SuitesErrorView,
>
    decreases items.len(),
{
    if items.len() == 0 {
        Ok(Seq::empty())
    } else {
        match named_suites(items.drop_last()) {
            Ok(before) => match suite_name_of(items.last()) {
                Ok(name) => Ok(before.push(name)),
                Err(e) => Err(e),
            },
            Err(e) => Err(e),
        }
    }
}

/// The suites that a list of items asks for. A list without an item asks for the defaults.
pub open spec fn listed_suites(items: Seq<AttributeMetaView>) -> Result<
    Seq<Seq<char>>,
    SuitesErrorView,
> {
    match named_suites(items) {
        Ok(suites) => if suites.len() == 0 {
            Ok(default_suites())
        } else {
            Ok(suites)
        },
        Err(e) => Err(e),
    }
}

/// Whether what was read asks for the suites in a list.
pub open spec fn asks_for_list(meta: Result<AttributeMetaView, Seq<char>>) -> bool {
    meta matches Ok(AttributeMetaView::List(name)) && is_suites(name)
}

/// The suites that an attribute with a word in it asks for, if `meta` is what it is read as, and
/// `items` what its list is read as, which counts only where the list is asked for. The words of what
/// cannot be read are handed on.
pub open spec fn suites_from(
    meta: Result<AttributeMetaView, Seq<char>>,
    items: Option<Result<Seq<AttributeMetaView>, Seq<char>>>,
) -> Result<Seq<Seq<char>>, SuitesErrorView> {
    match meta {
        Ok(AttributeMetaView::Path(name)) => if is_suites(name) {
            Ok(default_suites())
        } else {
            Err(SuitesErrorView::Unsupported)
        },
        Ok(AttributeMetaView::List(name)) => if is_suites(name) {
            match items->0 {
                Ok(list) => listed_suites(list),
                Err(words) => Err(SuitesErrorView::Syntax(words)),
            }
        } else {
            Err(SuitesErrorView::Unsupported)
        },
        Ok(AttributeMetaView::NameValue) => Err(SuitesErrorView::Unsupported),
        Err(words) => Err(SuitesErrorView::Syntax(words)),
    }
}

/// The contents of an answer.
pub open spec fn answer_view(r: Result<Vec<String>, SuitesError>) -> Result<
    Seq<Seq<char>>,
    SuitesErrorView,
> {
    match r {
        Ok(suites) => Ok(string_views(suites@)),
        Err(e) => Err(e@),
    }
}

/// The first error stays, whatever follows.
proof fn lemma_first_error(items: Seq<AttributeMetaView>, n: int)
    requires
        0 <= n <= items.len(),
        named_suites(items.take(n)) is Err,
    ensures
        named_suites(items) == named_suites(items.take(n)),
    decreases items.len(),
{
    if n < items.len() {
        assert(items.drop_last().take(n) =~= items.take(n));
        lemma_first_error(items.drop_last(), n);
    } else {
        assert(items.take(n) =~= items);
    }
}

/// Takes the suites out of the items of a list.
pub fn read_suites(items: &[AttributeMeta]) -> (r: Result<Vec<String>, SuitesError>)
    ensures
        match r {
            Ok(suites) => listed_suites(meta_views(items@)) == Ok::<
                Seq<Seq<char>>,
                SuitesErrorView,
            >(string_views(suites@)),
            Err(e) => listed_suites(meta_views(items@)) == Err::<
                Seq<Seq<char>>,
                SuitesErrorView,
            >(e@),
        },
{
    let ghost all = meta_views(items@);
    let mut names: Vec<String> = Vec::new();
    let mut i: usize = 0;
    assert(string_views(names@) =~= Seq::<Seq<char>>::empty());
    while i < items.len()
        invariant
            i <= items@.len(),
            all == meta_views(items@),
            named_suites(all.take(i as int)) == Ok::<Seq<Seq<char>>, SuitesErrorView>(
                string_views(names@),
            ),
        decreases items@.len() - i,
    {
        let ghost before = string_views(names@);
        proof {
            assert(all.take(i + 1).drop_last() =~= all.take(i as int));
            assert(all.take(i + 1).last() == items@[i as int]@);
        }
        match suite_name(&items[i]) {
            Ok(name) => {
                names.push(name);
                assert(string_views(names@) =~= before.push(name@));
            },
            Err(e) => {
                proof {
                    lemma_first_error(all, i + 1);
                }
                return Err(e);
            },
        }
        i += 1;
    }
    assert(all.take(i as int) =~= all);
    assert(string_views(names@).len() == names@.len());
    if names.len() == 0 {
        Ok(default_suite_idents())
    } else {
        Ok(names)
    }
}

/// Takes the suites out of what an attribute was read as, and out of what its list was read as, which
/// has to be there if the list is asked for.
pub fn choose_suites(
    meta: Result<AttributeMeta, String>,
    items: Option<Result<Vec<AttributeMeta>, String>>,
) -> (r: Result<Vec<String>, SuitesError>)
    requires
        asks_for_list(meta_reading(meta)) ==> items is Some,
    ensures
        answer_view(r) == suites_from(
            meta_reading(meta),
            match items {
                Some(list) => Some(items_reading(list)),
                None => None,
            },
        ),
{
    let item = match meta {
        Ok(item) => item,
        Err(words) => {
            return Err(SuitesError::Syntax(words));
        },
    };
    match (request_of(&item), items) {
        (Request::Defaults, _) => Ok(default_suite_idents()),
        (Request::Listed, Some(Ok(list))) => read_suites(list.as_slice()),
        (Request::Listed, Some(Err(words))) => Err(SuitesError::Syntax(words)),
        _ => Err(SuitesError::Unsupported),
    }
}

/// Reads the suites that an attribute asks for. What the attribute and its list are read as is up to
/// `syn`.
pub fn parse_suites(attr: &str) -> (r: Result<Vec<String>, SuitesError>)
    requires
        shallow(attr@),
    ensures
        trimmed(attr@).len() == 0 ==> answer_view(r) == Ok::<Seq<Seq<char>>, SuitesErrorView>(
            default_suites(),
        ),
        trimmed(attr@).len() > 0 ==> exists|
            meta: Result<AttributeMetaView, Seq<char>>,
            items: Option<Result<Seq<AttributeMetaView>, Seq<char>>>,
        |
            {
                &&& reads_as_meta(attr@, meta)
                &&& asks_for_list(meta) ==> items is Some && reads_as_items(attr@, items->0)
                &&& answer_view(r) == #[trigger] suites_from(meta, items)
            },
{
    if first_char(trim(attr)).is_none() {
        return Ok(default_suite_idents());
    }
    let meta = parse_meta(attr);
    let listed: bool = match &meta {
        Ok(item) => matches!(request_of(item), Request::Listed),
        Err(_) => false,
    };
    let items = if listed {
        Some(parse_items(attr))
    } else {
        None
    };
    choose_suites(meta, items)
}

/// An attribute never asks for no suite at all, whatever it and its list are read as.
pub proof fn law_some_suite_is_run(
    meta: Result<AttributeMetaView, Seq<char>>,
    items: Option<Result<Seq<AttributeMetaView>, Seq<char>>>,
)
    ensures
        default_suites().len() > 0,
        suites_from(meta, items) matches Ok(suites) ==> suites.len() > 0,
{
}

/// A name without the mark of a raw identifier.
pub open spec fn unmarked(name: Seq<char>) -> Seq<char> {
    if name.len() >= 2 && name[0] == 'r' && name[1] == '#' {
        name.skip(2)
    } else {
        name
    }
}

/// The name of the test that runs a suite. A suite may be a raw identifier; its test is not.
pub fn test_name(suite: &str) -> (r: String)
    ensures
        r@ == unmarked(suite@) + "_suite"@,
{
    proof {
        reveal_strlit("r#");
    }
    let plain = match strip_prefix(suite, "r#") {
        Some(rest) => {
            assert(suite@[0] == "r#"@[0] && suite@[1] == "r#"@[1]);
            rest
        },
        None => {
            assert(unmarked(suite@) == suite@) by {
                if suite@.len() >= 2 && suite@[0] == 'r' && suite@[1] == '#' {
                    assert(suite@.take(2) =~= "r#"@);
                }
            }
            suite
        },
    };
    let mut out = String::new();
    out.append(plain);
    out.append("_suite");
    assert(out@ =~= unmarked(suite@) + "_suite"@);
    out
}

/// The path of the function that runs a suite.
pub fn run_path(suite: &str) -> (r: String)
    ensures
        r@ == "spark_contract_tests::run_"@ + suite@ + "_suite"@,
{
    let mut out = String::new();
    out.append("spark_contract_tests::run_");
    out.append(suite);
    out.append("_suite");
    assert(out@ =~= "spark_contract_tests::run_"@ + suite@ + "_suite"@);
    out
}

/// Items that are all single identifiers name the suites of these names, one for one and in order.
pub proof fn law_identifiers_name_suites(items: Seq<AttributeMetaView>, names: Seq<Seq<char>>)
    requires
        items.len() == names.len(),
        forall|i: int|
            0 <= i < items.len() ==> #[trigger] items[i] == AttributeMetaView::Path(Some(names[i])),
    ensures
        named_suites(items) == Ok::<Seq<Seq<char>>, SuitesErrorView>(names),
        items.len() > 0 ==> listed_suites(items) == Ok::<Seq<Seq<char>>, SuitesErrorView>(names),
        items.len() == 0 ==> listed_suites(items) == Ok::<Seq<Seq<char>>, SuitesErrorView>(
            default_suites(),
        ),
    decreases items.len(),
{
    if items.len() > 0 {
        let init = items.drop_last();
        let front = names.drop_last();
        assert forall|i: int| 0 <= i < init.len() implies #[trigger] init[i]
            == AttributeMetaView::Path(Some(front[i])) by {
            assert(init[i] == items[i]);
        }
        law_identifiers_name_suites(init, front);
        assert(items[items.len() - 1] == AttributeMetaView::Path(Some(names[names.len() - 1])));
        assert(front.push(names.last()) =~= names);
    } else {
        assert(names =~= Seq::<Seq<char>>::empty());
    }
}

/// The first item that is no single identifier is what a list is refused for: a path of several
/// identifiers is told from what is more than a path.
pub proof fn law_first_item_that_is_no_identifier(
    items: Seq<AttributeMetaView>,
    names: Seq<Seq<char>>,
    k: int,
)
    requires
        0 <= k < items.len(),
        k == names.len(),
        forall|i: int|
            0 <= i < k ==> #[trigger] items[i] == AttributeMetaView::Path(Some(names[i])),
    ensures
        items[k] == AttributeMetaView::Path(None) ==> listed_suites(items) == Err::<
            Seq<Seq<char>>,
            SuitesErrorView,
        >(SuitesErrorView::NotIdentifier),
        items[k] is List || items[k] is NameValue ==> listed_suites(items) == Err::<
            Seq<Seq<char>>,
            SuitesErrorView,
        >(SuitesErrorView::NotPath),
    decreases items.len(),
{
    let init = items.drop_last();
    if k == items.len() - 1 {
        law_identifiers_name_suites(init, names);
    } else {
        assert forall|i: int| 0 <= i < k implies #[trigger] init[i] == AttributeMetaView::Path(
            Some(names[i]),
        ) by {
            assert(init[i] == items[i]);
        }
        law_first_item_that_is_no_identifier(init, names, k);
        assert(init[k] == items[k]);
    }
}

/// What an attribute asks for: `suites` alone asks for the defaults and with a list for what is listed;
/// any other name, and a value, is refused; what cannot be read is refused in its own words.
pub proof fn law_attributes_ask_for_suites(
    name: Option<Seq<char>>,
    list: Seq<AttributeMetaView>,
    words: Seq<char>,
    items: Option<Result<Seq<AttributeMetaView>, Seq<char>>>,
)
    ensures
        suites_from(Ok(AttributeMetaView::Path(Some("suites"@))), items) == Ok::<
            Seq<Seq<char>>,
            SuitesErrorView,
        >(default_suites()),
        suites_from(Ok(AttributeMetaView::List(Some("suites"@))), Some(Ok(list))) == listed_suites(
            list,
        ),
        suites_from(Ok(AttributeMetaView::List(Some("suites"@))), Some(Err(words))) == Err::<
            Seq<Seq<char>>,
            SuitesErrorView,
        >(SuitesErrorView::Syntax(words)),
        name != Some("suites"@) ==> suites_from(Ok(AttributeMetaView::Path(name)), items) == Err::<
            Seq<Seq<char>>,
            SuitesErrorView,
        >(SuitesErrorView::Unsupported),
        name != Some("suites"@) ==> suites_from(Ok(AttributeMetaView::List(name)), items) == Err::<
            Seq<Seq<char>>,
            SuitesErrorView,
        >(SuitesErrorView::Unsupported),
        suites_from(Ok(AttributeMetaView::NameValue), items) == Err::<
            Seq<Seq<char>>,
            SuitesErrorView,
        >(SuitesErrorView::Unsupported),
        suites_from(Err(words), items) == Err::<Seq<Seq<char>>, SuitesErrorView>(
            SuitesErrorView::Syntax(words),
        ),
        asks_for_list(Ok(AttributeMetaView::List(Some("suites"@)))),
{
}

/// The defaults are these seven suites, in this order.
pub proof fn law_default_suites()
    ensures
        default_suites().len() == 7,
        default_suites()[0] == "backpressure"@,
        default_suites()[1] == "cancellation"@,
        default_suites()[2] == "errors"@,
        default_suites()[3] == "state_machine"@,
        default_suites()[4] == "hot_swap"@,
        default_suites()[5] == "hot_reload"@,
        default_suites()[6] == "observability"@,
{
}

/// The brackets of two texts add up, and each of three characters opens one. A text nests only so far
/// if it opens at most 32 and, where it holds an equals sign, has at most 64 characters.
pub proof fn law_shallow_texts(a: Seq<char>, b: Seq<char>, c: char)
    ensures
        openings(Seq::empty()) == 0,
        openings(a + b) == openings(a) + openings(b),
        c == '(' || c == '[' || c == '{' ==> openings(seq![c]) == 1,
        c != '(' && c != '[' && c != '{' ==> openings(seq![c]) == 0,
        shallow(a) <==> openings(a) <= 32 && (a.contains('=') ==> a.len() <= 64),
    decreases b.len(),
{
    reveal_with_fuel(openings, 2);
    assert(seq![c].drop_last() =~= Seq::<char>::empty());
    if b.len() == 0 {
        assert(a + b =~= a);
    } else {
        law_shallow_texts(a, b.drop_last(), c);
        assert((a + b).drop_last() =~= a + b.drop_last());
        assert((a + b).last() == b.last());
    }
}

/// The mark of a raw identifier is taken off, and nothing else is.
pub proof fn law_marks_are_taken_off(name: Seq<char>)
    ensures
        unmarked(seq!['r', '#'] + name) == name,
        name.len() < 2 || name[0] != 'r' || name[1] != '#' ==> unmarked(name) == name,
{
    assert((seq!['r', '#'] + name).skip(2) =~= name);
}

/// The views of items, errors and answers hold what these hold.
pub proof fn law_items_are_seen(
    meta: AttributeMeta,
    list: Seq<AttributeMeta>,
    error: SuitesError,
    suites: Vec<String>,
    words: String,
)
    ensures
        meta matches AttributeMeta::Path(Some(name)) ==> meta@ == AttributeMetaView::Path(Some(name@)),
        meta matches AttributeMeta::Path(None) ==> meta@ == AttributeMetaView::Path(None),
        meta matches AttributeMeta::List(Some(name)) ==> meta@ == AttributeMetaView::List(Some(name@)),
        meta matches AttributeMeta::List(None) ==> meta@ == AttributeMetaView::List(None),
        meta == AttributeMeta::NameValue ==> meta@ == AttributeMetaView::NameValue,
        meta_views(list).len() == list.len(),
        forall|i: int| 0 <= i < list.len() ==> #[trigger] meta_views(list)[i] == list[i]@,
        error matches SuitesError::Syntax(w) ==> error@ == SuitesErrorView::Syntax(w@),
        error == SuitesError::NotIdentifier ==> error@ == SuitesErrorView::NotIdentifier,
        error == SuitesError::NotPath ==> error@ == SuitesErrorView::NotPath,
        error == SuitesError::Unsupported ==> error@ == SuitesErrorView::Unsupported,
        answer_view(Ok(suites)) == Ok::<Seq<Seq<char>>, SuitesErrorView>(string_views(suites@)),
        answer_view(Err(error)) == Err::<Seq<Seq<char>>, SuitesErrorView>(error@),
        meta_reading(Ok(meta)) == Ok::<AttributeMetaView, Seq<char>>(meta@),
        meta_reading(Err(words)) == Err::<AttributeMetaView, Seq<char>>(words@),
        items_reading(Err(words)) == Err::<Seq<AttributeMetaView>, Seq<char>>(words@),
{
}

} // verus!
