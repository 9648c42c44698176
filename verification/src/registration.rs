//! Registering a function as a benchmark.

#[allow(unused_imports)]
use crate::text::stripped;
use crate::text::strip_prefix;
use vstd::prelude::*;

verus! {

/// The name of the function that `item` is the source text of, or the message that it is none.
///
/// This is `syn::parse_str` for `syn::ItemFn`: on success the identifier of the function's
/// signature, with `r#` in front where it is a raw one, and else the text of the error. Nothing is
/// claimed of the answer. It does not depend on the text alone: `proc-macro2` splits the text into
/// tokens by itself or, within a procedural macro, by the compiler, and the two do not always
/// agree. A text that is nested too deeply for the stack is not accounted for.
#[verifier::external_body]
fn find_name(item: &str) -> (r: Result<String, String>) {
    match syn::parse_str::<syn::ItemFn>(item) {
        Ok(function) => Ok(function.sig.ident.to_string()),
        Err(error) => Err(error.to_string()),
    }
}

/// The names under which a function is registered as a benchmark.
#[derive(Debug)]
pub struct Registration {
    /// The function, which is also the name of the benchmark.
    pub function: String,
    /// The function without parameters and result that calls it.
    pub wrapper: String,
    /// The constant that holds the benchmark.
    pub constant: String,
}

/// The model of a `Registration`.
pub struct RegistrationView {
    pub function: Seq<char>,
    pub wrapper: Seq<char>,
    pub constant: Seq<char>,
}

impl View for Registration {
    type V = RegistrationView;

    open spec fn view(&self) -> RegistrationView {
        RegistrationView {
            function: self.function@,
            wrapper: self.wrapper@,
            constant: self.constant@,
        }
    }
}

/// Why an item is not registered.
#[derive(Debug)]
pub enum RegistrationError {
    /// The item is not a function; this is what the parser says.
    NotAFunction(String),
    /// The name of the function is a raw identifier, which no other name can be formed of.
    RawName(String),
}

/// The model of a `RegistrationError`.
pub enum RegistrationErrorView {
    NotAFunction(Seq<char>),
    RawName(Seq<char>),
}

impl View for RegistrationError {
    type V = RegistrationErrorView;

    open spec fn view(&self) -> RegistrationErrorView {
        match *self {
            RegistrationError::NotAFunction(message) => RegistrationErrorView::NotAFunction(
                message@,
            ),
            RegistrationError::RawName(name) => RegistrationErrorView::RawName(name@),
        }
    }
}

impl RegistrationErrorView {
    /// The error as text.
    pub open spec fn text(self) -> Seq<char> {
        match self {
            RegistrationErrorView::NotAFunction(message) => {
                "`#[iai]` attribute expects a function item: "@ + message
            },
            RegistrationErrorView::RawName(name) => {
                "\"wrap_"@ + name + "\" is not a valid Ident"@
            },
        }
    }
}

impl RegistrationError {
    /// The error as text.
    pub fn message(&self) -> (r: String)
        ensures
            r@ == self@.text(),
    {
        match self {
            RegistrationError::NotAFunction(message) => {
                let mut r: String = "`#[iai]` attribute expects a function item: ".to_owned();
                r.append(message.as_str());
                r
            },
            RegistrationError::RawName(name) => {
                let mut r: String = "\"wrap_".to_owned();
                r.append(name.as_str());
                r.append("\" is not a valid Ident");
                r
            },
        }
    }
}

/// The names that go with the function `name`.
pub open spec fn names_for(name: Seq<char>) -> RegistrationView {
    RegistrationView {
        function: name,
        wrapper: "wrap_"@ + name,
        constant: "IAI_FUNC_"@ + name,
    }
}

/// How an item is registered about which the parser says `parsed`.
pub open spec fn registered(parsed: Result<Seq<char>, Seq<char>>) -> Result<
    RegistrationView,
    RegistrationErrorView,
> {
    match parsed {
        Ok(name) => if stripped(name, "r#"@) is Some {
            Err(RegistrationErrorView::RawName(name))
        } else {
            Ok(names_for(name))
        },
        Err(message) => Err(RegistrationErrorView::NotAFunction(message)),
    }
}

/// Registers an item about which the parser says `parsed`.
pub fn register(parsed: Result<String, String>) -> (r: Result<Registration, RegistrationError>)
    ensures
        ({
            let said = match parsed {
                Ok(name) => Ok(name@),
                Err(message) => Err(message@),
            };
            match r {
                Ok(registration) => registered(said) == Ok::<
                    RegistrationView,
                    RegistrationErrorView,
                >(registration@),
                Err(error) => registered(said) == Err::<RegistrationView, RegistrationErrorView>(
                    error@,
                ),
            }
        }),
{
    match parsed {
        Ok(name) => {
            if strip_prefix(name.as_str(), "r#").is_some() {
                return Err(RegistrationError::RawName(name));
            }
            let mut wrapper: String = "wrap_".to_owned();
            wrapper.append(name.as_str());
            let mut constant: String = "IAI_FUNC_".to_owned();
            constant.append(name.as_str());
            Ok(Registration { function: name, wrapper, constant })
        },
        Err(message) => Err(RegistrationError::NotAFunction(message)),
    }
}

/// Registers the function that `item` is the source text of as a benchmark.
///
/// Which function that is, if any, is for the parser to say; `register` tells what becomes of each
/// of its answers. Whatever it says, what is registered has the names of one function, and a raw
/// name is never registered.
pub fn iai(item: &str) -> (r: Result<Registration, RegistrationError>)
    ensures
        match r {
            Ok(registration) => stripped(registration@.function, "r#"@) is None && registration@
                == names_for(registration@.function),
            Err(error) => error@ matches RegistrationErrorView::RawName(name) ==> stripped(
                name,
                "r#"@,
            ) is Some,
        },
{
    register(find_name(item))
}

/// Functions with different names are registered under different names.
pub proof fn law_registrations_do_not_clash(first: Seq<char>, second: Seq<char>)
    requires
        first != second,
    ensures
        names_for(first).wrapper != names_for(second).wrapper,
        names_for(first).constant != names_for(second).constant,
{
    lemma_same_suffix("wrap_"@, first, second);
    lemma_same_suffix("IAI_FUNC_"@, first, second);
}

/// Equal strings with a common prefix end alike.
proof fn lemma_same_suffix(prefix: Seq<char>, first: Seq<char>, second: Seq<char>)
    ensures
        prefix + first == prefix + second ==> first == second,
{
    assert(first == (prefix + first).skip(prefix.len() as int));
    assert(second == (prefix + second).skip(prefix.len() as int));
}

/// A function is registered under its own name, and its wrapper and its constant are called after it.
/// A raw identifier and an item that is no function are refused.
pub proof fn law_names_are_formed_of_the_function(name: Seq<char>, message: Seq<char>)
    ensures
        names_for(name).function == name,
        names_for(name).wrapper == "wrap_"@ + name,
        names_for(name).constant == "IAI_FUNC_"@ + name,
        !"r#"@.is_prefix_of(name) ==> registered(Ok::<Seq<char>, Seq<char>>(name)) == Ok::<
            RegistrationView,
            RegistrationErrorView,
        >(names_for(name)),
        "r#"@.is_prefix_of(name) ==> registered(Ok::<Seq<char>, Seq<char>>(name)) == Err::<
            RegistrationView,
            RegistrationErrorView,
        >(RegistrationErrorView::RawName(name)),
        registered(Err::<Seq<char>, Seq<char>>(message)) == Err::<
            RegistrationView,
            RegistrationErrorView,
        >(RegistrationErrorView::NotAFunction(message)),
{
}

/// What is said of an item that is not registered.
pub proof fn law_refusals_are_told_apart(text: Seq<char>)
    ensures
        RegistrationErrorView::NotAFunction(text).text()
            == "`#[iai]` attribute expects a function item: "@ + text,
        RegistrationErrorView::RawName(text).text() == "\"wrap_"@ + text
            + "\" is not a valid Ident"@,
{
}

/// Registrations and refusals are modelled as they are.
pub proof fn law_registrations_are_modelled_as_they_are(
    registration: Registration,
    error: RegistrationError,
    text: String,
)
    ensures
        registration@.function == registration.function@,
        registration@.wrapper == registration.wrapper@,
        registration@.constant == registration.constant@,
        error == RegistrationError::NotAFunction(text) ==> error@
            == RegistrationErrorView::NotAFunction(text@),
        error == RegistrationError::RawName(text) ==> error@ == RegistrationErrorView::RawName(
            text@,
        ),
{
}

} // verus!
