//! Formatting options: indentation, final newline, and named properties such as the
//! preferred line width.

use vstd::prelude::*;
use crate::text::{chars_of, same_chars};

verus! {

/// The value of a named formatting property.
#[derive(Clone, Debug, PartialEq)]
pub enum FormattingProperty {
    Bool(bool),
    Number(i32),
    Text(String),
}

/// Named properties; a later setting of a name replaces an earlier one.
#[derive(Clone, Debug)]
pub struct FormattingProperties {
    entries: Vec<(String, FormattingProperty)>,
}

/// The value last set for a name among the first `n` settings.
pub open spec fn lookup(entries: Seq<(String, FormattingProperty)>, key: Seq<char>, n: int) -> Option<FormattingProperty>
    decreases n,
{
    if n <= 0 || n > entries.len() {
        None
    } else if entries[n - 1].0@ == key {
        Some(entries[n - 1].1)
    } else {
        lookup(entries, key, n - 1)
    }
}

impl FormattingProperties {
    pub closed spec fn get_spec(&self, key: Seq<char>) -> Option<FormattingProperty> {
        lookup(self.entries@, key, self.entries@.len() as int)
    }

    pub open spec fn spec_map(&self) -> Map<Seq<char>, FormattingProperty> {
        Map::new(|k: Seq<char>| self.get_spec(k) is Some, |k: Seq<char>| self.get_spec(k)->0)
    }

    /// No property set.
    pub fn new() -> (r: Self)
        ensures
            r.spec_map() == Map::<Seq<char>, FormattingProperty>::empty(),
    {
        let r = FormattingProperties { entries: Vec::new() };
        assert(r.spec_map() =~= Map::<Seq<char>, FormattingProperty>::empty());
        r
    }

    /// Sets `key` to `value`.
    pub fn insert(&mut self, key: String, value: FormattingProperty)
        ensures
            final(self).spec_map() == old(self).spec_map().insert(key@, value),
    {
        let ghost before = self.spec_map();
        let ghost k = key@;
        self.entries.push((key, value));
        assert forall|q: Seq<char>| #[trigger] self.get_spec(q) == (if q == k {
            Some(value)
        } else {
            old(self).get_spec(q)
        }) by {
            assert(self.entries@.drop_last() =~= old(self).entries@);
            if q != k {
                assert forall|n: int| 0 <= n <= old(self).entries@.len() implies lookup(
                    self.entries@,
                    q,
                    n,
                ) == lookup(old(self).entries@, q, n) by {
                    lemma_lookup_prefix(self.entries@, old(self).entries@, q, n);
                }
            }
        }
        assert(self.spec_map() =~= before.insert(k, value));
    }

    /// The value set for `key`, if any.
    pub fn get(&self, key: &str) -> (r: Option<&FormattingProperty>)
        ensures
            match r {
                Some(v) => self.spec_map().dom().contains(key@) && self.spec_map()[key@] == *v,
                None => !self.spec_map().dom().contains(key@),
            },
    {
        let k = chars_of(key);
        let mut n = self.entries.len();
        while n > 0
            invariant
                n <= self.entries@.len(),
                k@ == key@,
                self.get_spec(key@) == lookup(self.entries@, key@, n as int),
            decreases n,
        {
            let e = &self.entries[n - 1];
            let ek = chars_of(e.0.as_str());
            if same_chars(&ek, &k) {
                return Some(&e.1);
            }
            n = n - 1;
        }
        None
    }
}

proof fn lemma_lookup_prefix(
    longer: Seq<(String, FormattingProperty)>,
    shorter: Seq<(String, FormattingProperty)>,
    key: Seq<char>,
    n: int,
)
    requires
        shorter.len() <= longer.len(),
        forall|i: int| 0 <= i < shorter.len() ==> longer[i] == shorter[i],
        0 <= n <= shorter.len(),
    ensures
        lookup(longer, key, n) == lookup(shorter, key, n),
    decreases n,
{
    if n > 0 {
        lemma_lookup_prefix(longer, shorter, key, n - 1);
    }
}

/// Options for formatting, with the fields of the Language Server Protocol's
/// `FormattingOptions`.
#[derive(Clone, Debug)]
pub struct FormattingOptions {
    pub tab_size: u32,
    pub insert_spaces: bool,
    pub properties: FormattingProperties,
    pub trim_trailing_whitespace: Option<bool>,
    pub insert_final_newline: Option<bool>,
    pub trim_final_newlines: Option<bool>,
}

impl Default for FormattingOptions {
    fn default() -> (r: Self)
        ensures
            r.tab_size == 0,
            !r.insert_spaces,
            r.properties.spec_map() == Map::<Seq<char>, FormattingProperty>::empty(),
            r.trim_trailing_whitespace is None,
            r.insert_final_newline is None,
            r.trim_final_newlines is None,
    {
        FormattingOptions {
            tab_size: 0,
            insert_spaces: false,
            properties: FormattingProperties::new(),
            trim_trailing_whitespace: None,
            insert_final_newline: None,
            trim_final_newlines: None,
        }
    }
}

/// The line width used when no positive `lineWidth` is set.
pub const DEFAULT_LINE_WIDTH: usize = 120;

/// The preferred line width: the `lineWidth` property when it is a positive number, and 120
/// otherwise.
pub open spec fn spec_line_width(o: FormattingOptions) -> nat {
    let m = o.properties.spec_map();
    if m.dom().contains("lineWidth"@) && m["lineWidth"@] is Number && m["lineWidth"@]->Number_0 > 0 {
        m["lineWidth"@]->Number_0 as nat
    } else {
        DEFAULT_LINE_WIDTH as nat
    }
}

impl FormattingOptions {
    pub fn line_width(&self) -> (r: usize)
        ensures
            r == spec_line_width(*self),
    {
        match self.properties.get("lineWidth") {
            Some(FormattingProperty::Number(value)) if *value > 0 => *value as usize,
            _ => DEFAULT_LINE_WIDTH,
        }
    }
}

/// The options that the command line sets: `indent_space` spaces per level (cut to 32 bits,
/// as `as u32` does), and `line_width` as the `lineWidth` property (at most `i32::MAX`); the
/// other fields as `Default` gives them.
pub fn formatting_options_from_cli(indent_space: usize, line_width: usize) -> (r: FormattingOptions)
    ensures
        r.tab_size == indent_space as u32,
        !r.insert_spaces,
        r.properties.spec_map() == Map::<Seq<char>, FormattingProperty>::empty().insert(
            "lineWidth"@,
            FormattingProperty::Number(
                if line_width > i32::MAX as usize {
                    i32::MAX
                } else {
                    line_width as i32
                },
            ),
        ),
        r.trim_trailing_whitespace is None,
        r.insert_final_newline is None,
        r.trim_final_newlines is None,
        spec_line_width(r) == if line_width == 0 {
            DEFAULT_LINE_WIDTH as nat
        } else if line_width > i32::MAX as usize {
            i32::MAX as nat
        } else {
            line_width as nat
        },
{
    let w: i32 = if line_width > i32::MAX as usize {
        i32::MAX
    } else {
        line_width as i32
    };
    let mut properties = FormattingProperties::new();
    properties.insert("lineWidth".to_owned(), FormattingProperty::Number(w));
    FormattingOptions {
        tab_size: indent_space as u32,
        insert_spaces: false,
        properties,
        trim_trailing_whitespace: None,
        insert_final_newline: None,
        trim_final_newlines: None,
    }
}

} // verus!
