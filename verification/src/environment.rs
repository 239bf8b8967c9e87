//! The variables that path templates refer to, and their expansion.
use crate::text::chars_of;
use vstd::prelude::*;
use vstd::string::*;

verus! {

/// A set of named variables, such as a snapshot of the process environment.
pub struct Environment {
    vars: Vec<(String, String)>,
}

/// The map that a list of bindings stands for: a later binding of a name
/// replaces an earlier one.
pub closed spec fn bindings(vars: Seq<(String, String)>) -> Map<Seq<char>, Seq<char>>
    decreases vars.len(),
{
    if vars.len() == 0 {
        Map::empty()
    } else {
        bindings(vars.drop_last()).insert(vars.last().0@, vars.last().1@)
    }
}

/// The value that `name` expands to: its binding, or the empty text where it
/// has none.
pub open spec fn value_of(vars: Map<Seq<char>, Seq<char>>, name: Seq<char>) -> Seq<char> {
    if vars.contains_key(name) {
        vars[name]
    } else {
        Seq::empty()
    }
}

/// The text that shell-style expansion (`$NAME`, `${NAME}`) makes of
/// `template` when every variable is replaced by its `value_of` in `vars`.
pub uninterp spec fn expansion(template: Seq<char>, vars: Map<Seq<char>, Seq<char>>) -> Seq<char>;

/// Whether the character is a letter or a digit, as `char::is_alphanumeric`
/// tells.
pub uninterp spec fn alphanumeric(c: char) -> bool;

/// The character is an ASCII character.
pub open spec fn is_ascii(c: char) -> bool {
    (c as u32) < 128
}

/// The character can stand in the name of a variable that is written
/// without braces.
pub open spec fn is_name_char(c: char) -> bool {
    alphanumeric(c) || c == '_'
}

/// The first place of `template` at or after `from` that holds no name
/// character, or its length where every place from there on holds one.
pub open spec fn name_end(template: Seq<char>, from: int) -> int
    decreases template.len() - from,
{
    if from < 0 || from >= template.len() {
        template.len() as int
    } else if is_name_char(template[from]) {
        name_end(template, from + 1)
    } else {
        from
    }
}

/// The first place of `template` at or after `from` that holds a closing
/// brace, if there is one.
pub open spec fn closing_brace(template: Seq<char>, from: int) -> Option<int>
    decreases template.len() - from,
{
    if from < 0 || from >= template.len() {
        None
    } else if template[from] == '}' {
        Some(from)
    } else {
        closing_brace(template, from + 1)
    }
}

/// The end of a name lies between where it was sought and the end of the
/// template.
pub proof fn lemma_name_end(template: Seq<char>, from: int)
    requires
        0 <= from <= template.len(),
    ensures
        from <= name_end(template, from) <= template.len(),
    decreases template.len() - from,
{
    if from < template.len() && is_name_char(template[from]) {
        lemma_name_end(template, from + 1);
    }
}

/// A closing brace lies at or after where it was sought.
pub proof fn lemma_closing_brace(template: Seq<char>, from: int)
    requires
        0 <= from,
    ensures
        closing_brace(template, from) matches Some(end) ==> from <= end < template.len()
            && template[end] == '}',
    decreases template.len() - from,
{
    if from < template.len() && template[from] != '}' {
        lemma_closing_brace(template, from + 1);
    }
}

/// The template can be expanded from the place `at` on, read as the
/// expansion reads it. At a `$` before an opening brace it goes on after the
/// closing brace, or after the opening one where none closes it; at a `$`
/// before a name character it goes on after the name; at a `$` before
/// another it goes on after both; and elsewhere with the next place. It
/// cannot go on at a `$` before a name character that is not an ASCII
/// character.
pub open spec fn expandable_from(template: Seq<char>, at: int) -> bool
    decreases template.len() - at,
{
    if at < 0 || at >= template.len() {
        true
    } else if template[at] != '$' || at + 1 >= template.len() {
        expandable_from(template, at + 1)
    } else if template[at + 1] == '{' {
        proof {
            lemma_closing_brace(template, at + 2);
        }
        match closing_brace(template, at + 2) {
            Some(end) => expandable_from(template, end + 1),
            None => expandable_from(template, at + 2),
        }
    } else if is_name_char(template[at + 1]) {
        proof {
            lemma_name_end(template, at + 2);
        }
        is_ascii(template[at + 1]) && expandable_from(template, name_end(template, at + 2))
    } else if template[at + 1] == '$' {
        expandable_from(template, at + 2)
    } else {
        expandable_from(template, at + 1)
    }
}

/// The template can be expanded: where the expansion comes upon a `$` before
/// a name character, that character is an ASCII character.
pub open spec fn expandable(template: Seq<char>) -> bool {
    expandable_from(template, 0)
}

impl View for Environment {
    type V = Map<Seq<char>, Seq<char>>;

    closed spec fn view(&self) -> Map<Seq<char>, Seq<char>> {
        bindings(self.vars@)
    }
}

/// A binding that no later one shadows is what the map holds for its name.
proof fn lemma_bindings_found(vars: Seq<(String, String)>, name: Seq<char>, i: int)
    requires
        0 <= i < vars.len(),
        vars[i].0@ == name,
        forall|j: int| i < j < vars.len() ==> (#[trigger] vars[j]).0@ != name,
    ensures
        bindings(vars).contains_key(name),
        bindings(vars)[name] == vars[i].1@,
    decreases vars.len(),
{
    if i < vars.len() - 1 {
        let rest = vars.drop_last();
        assert(rest[i] == vars[i]);
        assert forall|j: int| i < j < rest.len() implies (#[trigger] rest[j]).0@ != name by {
            assert(rest[j] == vars[j]);
        }
        lemma_bindings_found(rest, name, i);
        assert(vars.last().0@ != name);
    }
}

/// A name that no binding mentions is not in the map.
proof fn lemma_bindings_missing(vars: Seq<(String, String)>, name: Seq<char>)
    requires
        forall|j: int| 0 <= j < vars.len() ==> (#[trigger] vars[j]).0@ != name,
    ensures
        !bindings(vars).contains_key(name),
    decreases vars.len(),
{
    if vars.len() > 0 {
        let rest = vars.drop_last();
        assert forall|j: int| 0 <= j < rest.len() implies (#[trigger] rest[j]).0@ != name by {
            assert(rest[j] == vars[j]);
        }
        lemma_bindings_missing(rest, name);
        assert(vars.last().0@ != name);
    }
}

impl Environment {
    /// An environment without variables.
    pub fn new() -> (r: Environment)
        ensures
            r@ == Map::<Seq<char>, Seq<char>>::empty(),
    {
        Environment { vars: Vec::new() }
    }

    /// Binds `name` to `value`, replacing what it was bound to before.
    pub fn set(&mut self, name: String, value: String)
        ensures
            final(self)@ == old(self)@.insert(name@, value@),
    {
        proof {
            assert(self.vars@.push((name, value)).drop_last() =~= self.vars@);
        }
        self.vars.push((name, value));
    }

    /// The value bound to `name`, if any.
    pub fn get(&self, name: &str) -> (r: Option<String>)
        ensures
            match r {
                Some(value) => self@.contains_key(name@) && value@ == self@[name@],
                None => !self@.contains_key(name@),
            },
    {
        let key = name.to_owned();
        let mut i: usize = self.vars.len();
        while i > 0
            invariant
                i <= self.vars@.len(),
                key@ == name@,
                forall|j: int| i <= j < self.vars@.len() ==> (#[trigger] self.vars@[j]).0@ != name@,
            decreases i,
        {
            i -= 1;
            if self.vars[i].0 == key {
                proof {
                    lemma_bindings_found(self.vars@, name@, i as int);
                }
                return Some(self.vars[i].1.clone());
            }
        }
        proof {
            lemma_bindings_missing(self.vars@, name@);
        }
        None
    }

    /// What `name` expands to: its value, or the empty text where it is not
    /// bound. The answer is never `None`, so that an unbound name is not left
    /// standing in the expansion; the fallback of the form `${NAME:-fallback}`
    /// is therefore never taken.
    pub fn value_or_empty(&self, name: &str) -> (r: Option<String>)
        ensures
            r matches Some(value) && value@ == value_of(self@, name@),
    {
        match self.get(name) {
            Some(value) => Some(value),
            None => Some(String::new()),
        }
    }
}

/// Calls `char::is_alphanumeric`, which tells by the Unicode tables whether
/// the character is a letter or a digit; `alphanumeric` stands for its
/// answer, and nothing else is claimed of it.
#[verifier::external_body]
pub(crate) fn is_alphanumeric(c: char) -> (r: bool)
    ensures
        r == alphanumeric(c),
{
    c.is_alphanumeric()
}

/// Whether the character can stand in the name of a variable that is
/// written without braces.
fn is_name(c: char) -> (r: bool)
    ensures
        r == is_name_char(c),
{
    c == '_' || is_alphanumeric(c)
}

/// Whether the template can be expanded.
pub fn is_expandable(template: &str) -> (r: bool)
    ensures
        r == expandable(template@),
{
    let chars = chars_of(template);
    let n: usize = chars.len();
    let mut at: usize = 0;
    while at < n
        invariant
            at <= n,
            n == chars.len(),
            chars@ == template@,
            expandable_from(chars@, at as int) == expandable(template@),
        decreases n - at,
    {
        if chars[at] != '$' || at + 1 >= n {
            at += 1;
        } else {
            let next = chars[at + 1];
            if next == '{' {
                let mut end: usize = at + 2;
                while end < n && chars[end] != '}'
                    invariant
                        at + 2 <= end <= n,
                        n == chars.len(),
                        closing_brace(chars@, end as int) == closing_brace(chars@, at + 2),
                    decreases n - end,
                {
                    end += 1;
                }
                if end < n {
                    at = end + 1;
                } else {
                    at = at + 2;
                }
            } else if is_name(next) {
                let code: u32 = next as u32;
                if code >= 128 {
                    return false;
                }
                let mut end: usize = at + 2;
                while end < n && is_name(chars[end])
                    invariant
                        at + 2 <= end <= n,
                        n == chars.len(),
                        name_end(chars@, end as int) == name_end(chars@, at + 2),
                    decreases n - end,
                {
                    end += 1;
                }
                at = end;
            } else if next == '$' {
                at += 2;
            } else {
                at += 1;
            }
        }
    }
    true
}

/// Calls `shellexpand::env_with_context_no_errors` with a context that
/// answers every name with `Environment::value_or_empty`. The crate walks the
/// template and asks the context for each variable it finds, so its result
/// depends on the template and on the values that `vars` gives; `expansion`
/// stands for that result, and nothing else is claimed of it. Where the
/// crate comes upon a `$` before a name character, it cuts the template two
/// bytes after the `$`, which fails inside a character that is wider than
/// one byte: exactly the templates on which it does so are left out.
#[verifier::external_body]
pub(crate) fn expand(template: &str, vars: &Environment) -> (out: String)
    requires
        expandable(template@),
    ensures
        out@ == expansion(template@, vars@),
{
    shellexpand::env_with_context_no_errors(template, |name: &str| vars.value_or_empty(name))
        .into_owned()
}

} // verus!
