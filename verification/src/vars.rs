//! Variables substituted into a descriptor before it is parsed.
//!
//! A descriptor may use "moustache" placeholders of the form `{{ NAME }}`,
//! where the spaces inside the braces do not matter. [`Vars`] maps each name
//! to the text that replaces it. The descriptor is rendered as a template in
//! strict mode, so that a placeholder without a value is an error and never
//! an empty string.

use crate::keyed::{bindings, keys_of, texts, values_of, Keyed};
use std::collections::BTreeMap;
use vstd::prelude::*;
use vstd::std_specs::iter::IteratorSpec;
use vstd::string::StrSliceExecFns;

verus! {

/// The error that `handlebars` reports when a template cannot be compiled or
/// rendered. Nothing is known of its contents here; it is carried to the
/// caller.
#[verifier::external_type_specification]
#[verifier::external_body]
pub struct ExRenderError(handlebars::RenderError);

/// Why a template could not be expanded.
#[derive(Debug)]
pub enum ExpandError {
    /// The template includes a partial template and also defines one, so
    /// that a partial might include itself without end.
    PartialInclusion,
    /// The template could not be rendered: it is no valid template, or it
    /// uses a variable that has no value.
    Render(handlebars::RenderError),
}

/// Why a text is no `KEY=VALUE` pair.
#[derive(Debug)]
pub enum ParseVarsError {
    /// The text, which holds no `=`.
    MissingSeparator(String),
}

/// The map that a sequence of `(key, value)` pairs denotes: a later pair
/// replaces an earlier one with the same key.
pub open spec fn pairs_map(pairs: Seq<(String, String)>) -> Map<Seq<char>, Seq<char>>
    decreases pairs.len(),
{
    if pairs.len() == 0 {
        Map::empty()
    } else {
        pairs_map(pairs.drop_last()).insert(pairs.last().0@, pairs.last().1@)
    }
}

/// `pos` is the place of the first `=` of the text.
pub open spec fn is_separator(text: Seq<char>, pos: int) -> bool {
    &&& 0 <= pos < text.len()
    &&& text[pos] == '='
    &&& forall|j: int| 0 <= j < pos ==> text[j] != '='
}

/// A character that may stand between the opening `{{` of a tag and the
/// sign that tells what kind of tag it is.
pub open spec fn is_tag_padding(c: char) -> bool {
    c == ' ' || c == '\t' || c == '\n' || c == '\r' || c == '~' || c == '#'
}

/// A tag opens at `start` and nothing but padding follows its `{{` up to
/// `end`.
pub open spec fn open_tag(template: Seq<char>, start: int, end: int) -> bool {
    &&& 0 <= start
    &&& start + 2 <= end <= template.len()
    &&& template[start] == '{'
    &&& template[start + 1] == '{'
    &&& forall|k: int| start + 2 <= k < end ==> is_tag_padding(#[trigger] template[k])
}

/// A tag opens at `start` and its first sign, at `sign`, is `>`: the tag
/// includes a partial template.
pub open spec fn partial_tag(template: Seq<char>, start: int, sign: int) -> bool {
    open_tag(template, start, sign) && sign < template.len() && template[sign] == '>'
}

/// Some tag of the template includes a partial template.
pub open spec fn includes_partial(template: Seq<char>) -> bool {
    exists|start: int, sign: int| partial_tag(template, start, sign)
}

/// A block tag opens at `start`: among the padding that follows its `{{` up
/// to `end` stands a `#`.
pub open spec fn open_block_tag(template: Seq<char>, start: int, end: int) -> bool {
    open_tag(template, start, end) && exists|k: int|
        start + 2 <= k < end && #[trigger] template[k] == '#'
}

/// A block tag opens at `start` and its first sign, at `sign`, is `>` or
/// `*`: the block is the body of a partial, or of a decorator that can
/// make it one.
pub open spec fn defining_tag(template: Seq<char>, start: int, sign: int) -> bool {
    open_block_tag(template, start, sign) && sign < template.len() && (template[sign] == '>'
        || template[sign] == '*')
}

/// Some block of the template can be the body of a partial.
pub open spec fn defines_partial(template: Seq<char>) -> bool {
    exists|start: int, sign: int| defining_tag(template, start, sign)
}

/// The template includes a partial template and can define one: only such
/// a template can have a partial that includes itself.
pub open spec fn may_recurse(template: Seq<char>) -> bool {
    includes_partial(template) && defines_partial(template)
}

/// The text that rendering a template in strict mode gives when it succeeds,
/// with the variables as its data.
pub uninterp spec fn strict_rendering(template: Seq<char>, vars: Map<Seq<char>, Seq<char>>) -> Seq<char>;

/// Renders `template` with `handlebars::Handlebars::render_template`, on a
/// registry made by `Handlebars::new` and put in strict mode by
/// `set_strict_mode`, the data being the map from each name to its value.
///
/// Only the text of a successful rendering is taken to depend on the
/// template and that map alone: the registry is fresh, and the map is handed
/// over in the order of its names. Whether the rendering succeeds is left
/// open, since the parser also gives up when the process has set it a call
/// limit or the thread is short of stack.
///
/// A template that both includes a partial and can define one is left out:
/// a partial that includes itself would never finish. On a fresh registry a
/// partial has a body only where the template gives it one, in a partial
/// block or in the block of an `inline` decorator; the inclusion of any
/// other partial renders nothing.
#[verifier::external_body]
fn render_strict(template: &str, data: &Vec<(String, String)>) -> (r: Result<
    String,
    handlebars::RenderError,
>)
    requires
        !may_recurse(template@),
        keys_of(data@).no_duplicates(),
    ensures
        r matches Ok(text) ==> text@ == strict_rendering(
            template@,
            bindings(keys_of(data@), texts(values_of(data@))),
        ),
{
    let mut registry = handlebars::Handlebars::new();
    registry.set_strict_mode(true);
    let map: BTreeMap<&str, &str> = data.iter().map(|(k, v)| (k.as_str(), v.as_str())).collect();
    registry.render_template(template, &map)
}

fn is_padding(c: char) -> (r: bool)
    ensures
        r == is_tag_padding(c),
{
    c == ' ' || c == '\t' || c == '\n' || c == '\r' || c == '~' || c == '#'
}

/// Whether some tag of the template includes a partial template.
pub fn has_partial_inclusion(template: &str) -> (r: bool)
    ensures
        r == includes_partial(template@),
{
    let mut open = false;
    let mut after_brace = false;
    for c in it: template.chars()
        invariant
            it.seq() == template@,
            open <==> exists|start: int| open_tag(template@, start, it.index() as int),
            after_brace <==> (it.index() > 0 && template@[it.index() - 1] == '{'),
            forall|start: int, sign: int|
                sign < it.index() ==> !partial_tag(template@, start, sign),
    {
        let ghost at = it.index() as int;
        assert(c == template@[at]);
        if open && c == '>' {
            proof {
                let start = choose|start: int| open_tag(template@, start, at);
                assert(partial_tag(template@, start, at));
            }
            return true;
        }
        let still_open = open && is_padding(c);
        let opened = after_brace && c == '{';
        proof {
            let next = at + 1;
            if still_open {
                let start = choose|start: int| open_tag(template@, start, at);
                assert(open_tag(template@, start, next));
            }
            if opened {
                assert(open_tag(template@, at - 1, next));
            }
            if exists|start: int| open_tag(template@, start, next) {
                let start = choose|start: int| open_tag(template@, start, next);
                if start + 2 == next {
                    assert(opened);
                } else {
                    assert(is_tag_padding(template@[at]));
                    assert(open_tag(template@, start, at));
                    assert(still_open);
                }
            }
            assert forall|start: int, sign: int| sign < next implies !partial_tag(
                template@,
                start,
                sign,
            ) by {
                if sign == at && partial_tag(template@, start, sign) {
                    assert(open_tag(template@, start, at));
                }
            }
        }
        open = still_open || opened;
        after_brace = c == '{';
    }
    false
}

/// Whether some block of the template can be the body of a partial.
pub fn has_partial_definition(template: &str) -> (r: bool)
    ensures
        r == defines_partial(template@),
{
    let mut open = false;
    let mut hashed = false;
    let mut after_brace = false;
    for c in it: template.chars()
        invariant
            it.seq() == template@,
            open <==> exists|start: int| open_tag(template@, start, it.index() as int),
            hashed <==> exists|start: int| open_block_tag(template@, start, it.index() as int),
            after_brace <==> (it.index() > 0 && template@[it.index() - 1] == '{'),
            forall|start: int, sign: int|
                sign < it.index() ==> !defining_tag(template@, start, sign),
    {
        let ghost at = it.index() as int;
        assert(c == template@[at]);
        if hashed && (c == '>' || c == '*') {
            proof {
                let start = choose|start: int| open_block_tag(template@, start, at);
                assert(defining_tag(template@, start, at));
            }
            return true;
        }
        let still_open = open && is_padding(c);
        let opened = after_brace && c == '{';
        let still_hashed = hashed && is_padding(c);
        let newly_hashed = open && c == '#';
        proof {
            let next = at + 1;
            if still_open {
                let start = choose|start: int| open_tag(template@, start, at);
                assert(open_tag(template@, start, next));
            }
            if opened {
                assert(open_tag(template@, at - 1, next));
            }
            if exists|start: int| open_tag(template@, start, next) {
                let start = choose|start: int| open_tag(template@, start, next);
                if start + 2 == next {
                    assert(opened);
                } else {
                    assert(is_tag_padding(template@[at]));
                    assert(open_tag(template@, start, at));
                    assert(still_open);
                }
            }
            if still_hashed {
                let start = choose|start: int| open_block_tag(template@, start, at);
                let k = choose|k: int| start + 2 <= k < at && #[trigger] template@[k] == '#';
                assert(open_tag(template@, start, next));
                assert(start + 2 <= k < next && template@[k] == '#');
                assert(open_block_tag(template@, start, next));
            }
            if newly_hashed {
                let start = choose|start: int| open_tag(template@, start, at);
                assert(open_tag(template@, start, next));
                assert(start + 2 <= at < next && template@[at] == '#');
                assert(open_block_tag(template@, start, next));
            }
            if exists|start: int| open_block_tag(template@, start, next) {
                let start = choose|start: int| open_block_tag(template@, start, next);
                let k = choose|k: int| start + 2 <= k < next && #[trigger] template@[k] == '#';
                assert(is_tag_padding(template@[at]));
                assert(open_tag(template@, start, at));
                if k == at {
                    assert(newly_hashed);
                } else {
                    assert(start + 2 <= k < at && template@[k] == '#');
                    assert(open_block_tag(template@, start, at));
                    assert(still_hashed);
                }
            }
            assert forall|start: int, sign: int| sign < next implies !defining_tag(
                template@,
                start,
                sign,
            ) by {
                if sign == at && defining_tag(template@, start, sign) {
                    assert(open_block_tag(template@, start, at));
                }
            }
        }
        open = still_open || opened;
        hashed = still_hashed || newly_hashed;
        after_brace = c == '{';
    }
    false
}

/// What an attempt to render gives to the caller of [`Vars::expand`].
pub fn expansion(rendered: Result<String, handlebars::RenderError>) -> (r: Result<
    String,
    ExpandError,
>)
    ensures
        match rendered {
            Ok(text) => r == Ok::<String, ExpandError>(text),
            Err(e) => r == Err::<String, ExpandError>(ExpandError::Render(e)),
        },
{
    match rendered {
        Ok(text) => Ok(text),
        Err(e) => Err(ExpandError::Render(e)),
    }
}

/// Parses one variable from a text of the form `KEY=VALUE`: the key is what
/// stands before the first `=`, the value all that follows it. Either may be
/// empty. A text without `=` is handed back in the error.
pub fn parse_vars(s: &str) -> (r: Result<(String, String), ParseVarsError>)
    ensures
        match r {
            Ok((key, value)) => exists|pos: int|
                #![trigger is_separator(s@, pos)]
                {
                    &&& is_separator(s@, pos)
                    &&& key@ == s@.subrange(0, pos)
                    &&& value@ == s@.subrange(pos + 1, s@.len() as int)
                },
            Err(ParseVarsError::MissingSeparator(text)) => {
                &&& text@ == s@
                &&& forall|pos: int| 0 <= pos < s@.len() ==> s@[pos] != '='
            },
        },
{
    let len = s.unicode_len();
    let mut pos: usize = 0;
    for c in it: s.chars()
        invariant
            it.seq() == s@,
            len == s@.len(),
            pos == it.index(),
            forall|j: int| 0 <= j < it.index() ==> s@[j] != '=',
    {
        assert(c == s@[pos as int]);
        if c == '=' {
            assert(is_separator(s@, pos as int));
            let key = s.substring_char(0, pos);
            let value = s.substring_char(pos + 1, len);
            return Ok((key.to_owned(), value.to_owned()));
        }
        pos += 1;
    }
    Err(ParseVarsError::MissingSeparator(s.to_owned()))
}

/// The variables of a descriptor, keyed by name.
#[derive(Debug)]
pub struct Vars {
    vars: Keyed<String>,
}

impl View for Vars {
    type V = Map<Seq<char>, Seq<char>>;

    closed spec fn view(&self) -> Map<Seq<char>, Seq<char>> {
        bindings(self.vars.keys(), texts(self.vars.values()))
    }
}

impl Clone for Vars {
    /// A second set with the same variables, in the same order.
    fn clone(&self) -> (r: Self)
        ensures
            r@ == self@,
            r.names() == self.names(),
    {
        let mut copy: Keyed<String> = Keyed::new();
        let n = self.vars.len();
        let mut i: usize = 0;
        while i < n
            invariant
                0 <= i <= n,
                n == self.vars.keys().len(),
                self.vars.consistent(),
                copy.consistent(),
                copy.keys() == self.vars.keys().take(i as int),
                texts(copy.values()) == texts(self.vars.values()).take(i as int),
            decreases n - i,
        {
            proof {
                let name = self.vars.keys()[i as int];
                if copy@.contains_key(name) {
                    assert(copy.keys().to_set().contains(name));
                    let j = copy.keys().index_of(name);
                    assert(self.vars.keys()[j] == self.vars.keys()[i as int]);
                }
            }
            let ghost before = texts(copy.values());
            copy.insert(self.vars.key(i).clone(), self.vars.value(i).clone());
            proof {
                assert(copy.keys() =~= self.vars.keys().take(i + 1));
                assert(texts(copy.values()) =~= before.push(self.vars.values()[i as int]@));
                assert(texts(copy.values()) =~= texts(self.vars.values()).take(i + 1));
            }
            i += 1;
        }
        proof {
            assert(self.vars.keys().take(n as int) =~= self.vars.keys());
            assert(texts(self.vars.values()).take(n as int) =~= texts(self.vars.values()));
        }
        Vars { vars: copy }
    }
}

impl Default for Vars {
    /// The empty set of variables.
    fn default() -> (r: Self)
        ensures
            r@ == Map::<Seq<char>, Seq<char>>::empty(),
            r.names() == Seq::<Seq<char>>::empty(),
    {
        Vars::new()
    }
}

impl Vars {
    /// The names, in the order in which they were first bound.
    pub closed spec fn names(&self) -> Seq<Seq<char>> {
        self.vars.keys()
    }

    /// The empty set of variables: it binds nothing and has no names.
    pub fn new() -> (r: Self)
        ensures
            r@ == Map::<Seq<char>, Seq<char>>::empty(),
            r.names() == Seq::<Seq<char>>::empty(),
    {
        let r = Vars { vars: Keyed::new() };
        assert(r@ =~= Map::<Seq<char>, Seq<char>>::empty());
        r
    }

    /// The number of variables.
    pub fn len(&self) -> (r: usize)
        ensures
            r == self@.dom().len(),
            self@.dom().finite(),
    {
        let n = self.vars.len();
        proof {
            assert(self@.dom() =~= self.vars.keys().to_set());
            self.vars.keys().unique_seq_to_set();
        }
        n
    }

    /// The variables as `(name, value)` pairs, each name once, in the order
    /// in which the names were first bound.
    pub fn entries(&self) -> (r: &Vec<(String, String)>)
        ensures
            keys_of(r@).no_duplicates(),
            keys_of(r@) == self.names(),
            bindings(keys_of(r@), texts(values_of(r@))) == self@,
    {
        self.vars.entries()
    }

    /// The value bound to `name`, if any.
    pub fn get(&self, name: &str) -> (r: Option<&String>)
        ensures
            match r {
                Some(value) => self@.contains_key(name@) && value@ == self@[name@],
                None => !self@.contains_key(name@),
            },
    {
        match self.vars.position(name) {
            Some(i) => {
                proof {
                    crate::keyed::lemma_index_of_unique(self.vars.keys(), i as int);
                }
                Some(self.vars.value(i))
            },
            None => None,
        }
    }

    /// Binds `name` to `value`, in place of the value it had, if any.
    pub fn insert(&mut self, name: String, value: String)
        ensures
            final(self)@ == old(self)@.insert(name@, value@),
    {
        let ghost keys = self.vars.keys();
        let ghost values = self.vars.values();
        let found = self.vars.position(name.as_str());
        proof {
            match found {
                Some(i) => {
                    crate::keyed::lemma_bindings_update(keys, texts(values), i as int, value@);
                    assert(texts(values.update(i as int, value)) =~= texts(values).update(
                        i as int,
                        value@,
                    ));
                },
                None => {
                    crate::keyed::lemma_bindings_push(keys, texts(values), name@, value@);
                    assert(texts(values.push(value)) =~= texts(values).push(value@));
                },
            }
        }
        match found {
            Some(i) => {
                self.vars.replace(i, value);
            },
            None => {
                self.vars.insert(name, value);
            },
        }
    }

    /// The variables that a list of `(name, value)` pairs declares. Where a
    /// name stands more than once, its last value counts.
    pub fn from(value: Vec<(String, String)>) -> (r: Self)
        ensures
            r@ == pairs_map(value@),
    {
        let mut r = Vars::new();
        let mut i: usize = 0;
        while i < value.len()
            invariant
                0 <= i <= value.len(),
                r@ == pairs_map(value@.take(i as int)),
            decreases value.len() - i,
        {
            proof {
                assert(value@.take(i + 1).drop_last() =~= value@.take(i as int));
            }
            r.insert(value[i].0.clone(), value[i].1.clone());
            i += 1;
        }
        proof {
            assert(value@.take(i as int) =~= value@);
        }
        r
    }

    /// All variables of `self` and of `other`; where both bind a name, the
    /// value of `self` counts.
    pub fn merge_overwrite(self, other: Self) -> (r: Self)
        ensures
            r@ == other@.union_prefer_right(self@),
    {
        let mut merged = other;
        let n = self.vars.len();
        let mut i: usize = 0;
        while i < n
            invariant
                0 <= i <= n,
                n == self.vars.keys().len(),
                self.vars.consistent(),
                merged@ == other@.union_prefer_right(
                    bindings(self.vars.keys().take(i as int), texts(self.vars.values())),
                ),
            decreases n - i,
        {
            let ghost keys = self.vars.keys();
            let ghost values = texts(self.vars.values());
            proof {
                lemma_bindings_take(keys, values, i as int);
            }
            merged.insert(self.vars.key(i).clone(), self.vars.value(i).clone());
            proof {
                assert(merged@ =~= other@.union_prefer_right(
                    bindings(keys.take(i + 1), values),
                ));
            }
            i += 1;
        }
        proof {
            assert(self.vars.keys().take(i as int) =~= self.vars.keys());
        }
        merged
    }

    /// Renders `template` with these variables as its data. Each placeholder
    /// is replaced by the value of its variable; one without a value is an
    /// error. A template that includes a partial and can define one is
    /// refused, and only such a template; any other is rendered, and the
    /// result is the rendered text or the error of the renderer.
    pub fn expand(&self, template: &str) -> (r: Result<String, ExpandError>)
        ensures
            match r {
                Ok(text) => !may_recurse(template@) && text@ == strict_rendering(
                    template@,
                    self@,
                ),
                Err(ExpandError::PartialInclusion) => may_recurse(template@),
                Err(ExpandError::Render(_)) => !may_recurse(template@),
            },
    {
        if has_partial_inclusion(template) && has_partial_definition(template) {
            return Err(ExpandError::PartialInclusion);
        }
        expansion(render_strict(template, self.vars.entries()))
    }
}

/// Among distinct keys, the bindings of the first `n + 1` are those of the
/// first `n` and that of the key at `n`.
pub proof fn lemma_bindings_take<V>(keys: Seq<Seq<char>>, values: Seq<V>, n: int)
    requires
        keys.no_duplicates(),
        keys.len() == values.len(),
        0 <= n < keys.len(),
    ensures
        bindings(keys.take(n + 1), values) == bindings(keys.take(n), values).insert(
            keys[n],
            values[n],
        ),
{
    let longer = bindings(keys.take(n + 1), values);
    let inserted = bindings(keys.take(n), values).insert(keys[n], values[n]);
    let more = keys.take(n + 1);
    let fewer = keys.take(n);
    assert(more.no_duplicates());
    assert(fewer.no_duplicates());
    assert forall|k: Seq<char>| longer.contains_key(k) <==> inserted.contains_key(k) by {
        if more.contains(k) {
            let j = more.index_of(k);
            assert(0 <= j < more.len() && more[j] == k);
            if j < n {
                assert(fewer[j] == k);
            }
        }
        if fewer.contains(k) {
            let j = fewer.index_of(k);
            assert(0 <= j < fewer.len() && fewer[j] == k);
            assert(more[j] == k);
        }
        if k == keys[n] {
            assert(more[n] == k);
        }
    }
    assert forall|k: Seq<char>| longer.contains_key(k) implies longer[k] == inserted[k] by {
        let j = more.index_of(k);
        assert(0 <= j < more.len() && more[j] == k);
        crate::keyed::lemma_index_of_unique(more, j);
        if j < n {
            assert(fewer[j] == k);
            crate::keyed::lemma_index_of_unique(fewer, j);
        }
    }
    assert(longer =~= inserted);
}

} // verus!
