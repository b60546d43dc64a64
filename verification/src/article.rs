use crate::date::Date;
use crate::date::days_in_month;
use crate::date::format_date;
use crate::date::is_digit;
use crate::date::parse_date;
use crate::date::valid_date;
use crate::CoreError;
use vstd::prelude::*;
use vstd::string::StrSliceExecFns;
use vstd::string::StringExecFns;

verus! {

/// The tag list as it stands in the SQL statement: each tag followed by a comma.
pub open spec fn joined_tags(tags: Seq<Seq<char>>) -> Seq<char>
    decreases tags.len(),
{
    if tags.len() == 0 {
        Seq::empty()
    } else {
        joined_tags(tags.drop_last()) + tags.last() + (",")@
    }
}

/// The SQL insert statement for one record.
pub open spec fn sql_of(a: ArticleCardView) -> Seq<char> {
    ("insert into article_card values (\"")@ + a.title + ("\",\"")@ + a.time + ("\",\"")@
        + a.category + ("\",\"")@ + joined_tags(a.tags) + ("\",\"")@ + a.part + ("\");")@
}

/// Mathematical model of one article record: every string is a sequence of
/// characters, the tag list a sequence of such sequences.
pub ghost struct ArticleCardView {
    pub name: Seq<char>,
    pub title: Seq<char>,
    pub time: Seq<char>,
    pub category: Seq<char>,
    pub tags: Seq<Seq<char>>,
    pub part: Seq<char>,
}

/// One article's metadata and content: the atomic unit the index stores.
pub struct ArticleCard {
    pub name: String,
    pub title: String,
    pub time: String,
    pub category: String,
    pub tags: Vec<String>,
    pub part: String,
}

impl View for ArticleCard {
    type V = ArticleCardView;

    open spec fn view(&self) -> ArticleCardView {
        ArticleCardView {
            name: self.name@,
            title: self.title@,
            time: self.time@,
            category: self.category@,
            tags: self.tags.deep_view(),
            part: self.part@,
        }
    }
}

fn clone_tags(tags: &Vec<String>) -> (r: Vec<String>)
    ensures
        r.deep_view() == tags.deep_view(),
{
    let mut r: Vec<String> = Vec::new();
    let mut i: usize = 0;
    while i < tags.len()
        invariant
            0 <= i <= tags.len(),
            r.len() == i,
            forall|k: int| 0 <= k < i ==> r.deep_view()[k] == tags.deep_view()[k],
        decreases tags.len() - i,
    {
        r.push(tags[i].clone());
        i = i + 1;
    }
    proof {
        assert(r.deep_view() =~= tags.deep_view());
    }
    r
}

impl Clone for ArticleCard {
    fn clone(&self) -> (r: Self)
        ensures
            r@ == self@,
    {
        ArticleCard {
            name: self.name.clone(),
            title: self.title.clone(),
            time: self.time.clone(),
            category: self.category.clone(),
            tags: clone_tags(&self.tags),
            part: self.part.clone(),
        }
    }
}

impl ArticleCard {
    /// A record is in exactly the category whose label equals its own,
    /// by exact, case-sensitive string comparison.
    pub fn is_in_category(&self, category: &str) -> (r: bool)
        ensures
            r == (self@.category == category@),
    {
        if self.category == category.to_owned() {
            true
        } else {
            false
        }
    }

    /// A record has a tag exactly when the tag occurs in its tag list,
    /// by exact string comparison.
    pub fn has_tag(&self, tag: &str) -> (r: bool)
        ensures
            r == self@.tags.contains(tag@),
    {
        let tag_string = tag.to_owned();
        let mut result = false;
        let mut i: usize = 0;
        while i < self.tags.len()
            invariant
                0 <= i <= self.tags.len(),
                tag_string@ == tag@,
                result == exists|k: int| 0 <= k < i && self.tags.deep_view()[k] == tag@,
            decreases self.tags.len() - i,
        {
            if self.tags[i] == tag_string {
                proof {
                    assert(self.tags.deep_view()[i as int] == tag@);
                }
                result = true;
            }
            i = i + 1;
        }
        proof {
            assert(result == self@.tags.contains(tag@));
        }
        result
    }

    /// The SQL statement that inserts this record into the article table.
    pub fn to_sql(&self) -> (r: String)
        ensures
            r@ == sql_of(self@),
    {
        let ghost tv = self.tags.deep_view();
        let mut tags = String::new();
        let mut i: usize = 0;
        while i < self.tags.len()
            invariant
                0 <= i <= self.tags.len(),
                tv == self.tags.deep_view(),
                tags@ == joined_tags(tv.take(i as int)),
            decreases self.tags.len() - i,
        {
            tags.append(self.tags[i].as_str());
            tags.append(",");
            proof {
                assert(tv.take(i + 1).drop_last() =~= tv.take(i as int));
                assert(tv.take(i + 1).last() == tv[i as int]);
            }
            i = i + 1;
        }
        proof {
            assert(tv.take(self.tags.len() as int) =~= tv);
        }
        let mut r = String::new();
        r.append("insert into article_card values (\"");
        r.append(self.title.as_str());
        r.append("\",\"");
        r.append(self.time.as_str());
        r.append("\",\"");
        r.append(self.category.as_str());
        r.append("\",\"");
        r.append(tags.as_str());
        r.append("\",\"");
        r.append(self.part.as_str());
        r.append("\");");
        proof {
            assert(r@ =~= sql_of(self@));
        }
        r
    }

    /// Parses the record's date string under the fixed `YYYY-MM-DD` format;
    /// a string of any other shape, or one naming no valid calendar date,
    /// is reported as malformed.
    pub fn get_time(&self) -> (r: Result<Date, CoreError>)
        ensures
            match parse_date(self@.time) {
                Some(d) => r == Ok::<Date, CoreError>(d),
                None => r == Err::<Date, CoreError>(CoreError::MalformedDate),
            },
    {
        let s: &str = self.time.as_str();
        let n = s.unicode_len();
        if n != 10 {
            return Err(CoreError::MalformedDate);
        }
        let c0 = s.get_char(0);
        let c1 = s.get_char(1);
        let c2 = s.get_char(2);
        let c3 = s.get_char(3);
        let c4 = s.get_char(4);
        let c5 = s.get_char(5);
        let c6 = s.get_char(6);
        let c7 = s.get_char(7);
        let c8 = s.get_char(8);
        let c9 = s.get_char(9);
        if !(char_is_digit(c0) && char_is_digit(c1) && char_is_digit(c2) && char_is_digit(c3)
            && c4 == '-' && char_is_digit(c5) && char_is_digit(c6) && c7 == '-' && char_is_digit(c8)
            && char_is_digit(c9)) {
            return Err(CoreError::MalformedDate);
        }
        let year = char_digit(c0) * 1000 + char_digit(c1) * 100 + char_digit(c2) * 10 + char_digit(
            c3,
        );
        let month = char_digit(c5) * 10 + char_digit(c6);
        let day = char_digit(c8) * 10 + char_digit(c9);
        if month < 1 || month > 12 {
            return Err(CoreError::MalformedDate);
        }
        if day < 1 || day > days_in_month_of(year, month) {
            return Err(CoreError::MalformedDate);
        }
        let d = Date { year, month, day };
        proof {
            assert(valid_date(d));
            assert(parse_date(self@.time) == Some(d));
        }
        Ok(d)
    }

    /// Stores the given date, rendered back to `YYYY-MM-DD`, as the record's
    /// date string; every other field keeps its value.
    pub fn set_time(&mut self, date: Date)
        requires
            valid_date(date),
        ensures
            final(self)@ == (ArticleCardView { time: format_date(date), ..old(self)@ }),
    {
        self.time = date.formatted();
    }
}

/// Holds of the records of one category: the predicate `filterByCategory` keeps.
pub open spec fn cat_pred(category: Seq<char>) -> spec_fn(ArticleCardView) -> bool {
    |a: ArticleCardView| a.category == category
}

/// Holds of the records carrying one tag: the predicate `filterByTag` keeps.
pub open spec fn tag_pred(tag: Seq<char>) -> spec_fn(ArticleCardView) -> bool {
    |a: ArticleCardView| a.tags.contains(tag)
}

/// The queryable index: an ordered sequence of article records, in load order.
pub struct ArticleList(pub Vec<ArticleCard>);

impl View for ArticleList {
    type V = Seq<ArticleCardView>;

    open spec fn view(&self) -> Seq<ArticleCardView> {
        self.0@.map_values(|c: ArticleCard| c@)
    }
}

/// Wraps an ordered sequence of records, unchanged, as the index to query.
pub fn build_index(records: Vec<ArticleCard>) -> (r: ArticleList)
    ensures
        r@ == records@.map_values(|c: ArticleCard| c@),
{
    ArticleList(records)
}

impl ArticleList {
    /// Keeps exactly the records of the given category, in their original
    /// order; the boolean reports whether any matched.
    pub fn in_category(&self, category: &str) -> (r: (ArticleList, bool))
        ensures
            r.0@ == self@.filter(cat_pred(category@)),
            r.1 == (r.0@.len() > 0),
    {
        let ghost full = self@;
        let ghost pred = cat_pred(category@);
        let mut out: Vec<ArticleCard> = Vec::new();
        let mut i: usize = 0;
        proof {
            reveal(Seq::filter);
            assert(out@.map_values(|c: ArticleCard| c@) =~= full.take(0).filter(pred));
        }
        while i < self.0.len()
            invariant
                0 <= i <= self.0.len(),
                full == self@,
                pred == cat_pred(category@),
                out@.map_values(|c: ArticleCard| c@) == full.take(i as int).filter(pred),
            decreases self.0.len() - i,
        {
            let ghost prev = out@.map_values(|c: ArticleCard| c@);
            if self.0[i].is_in_category(category) {
                out.push(self.0[i].clone());
                proof {
                    assert(out@.map_values(|c: ArticleCard| c@) =~= prev.push(full[i as int]));
                }
            }
            proof {
                reveal(Seq::filter);
                assert(full.take(i + 1).drop_last() =~= full.take(i as int));
                assert(full.take(i + 1).last() == full[i as int]);
            }
            i = i + 1;
        }
        proof {
            assert(full.take(self.0.len() as int) =~= full);
        }
        let found = out.len() > 0;
        (ArticleList(out), found)
    }

    /// Keeps exactly the records carrying the given tag, in their original
    /// order; the boolean reports whether any matched.
    pub fn has_tag(&self, tag: &str) -> (r: (ArticleList, bool))
        ensures
            r.0@ == self@.filter(tag_pred(tag@)),
            r.1 == (r.0@.len() > 0),
    {
        let ghost full = self@;
        let ghost pred = tag_pred(tag@);
        let mut out: Vec<ArticleCard> = Vec::new();
        let mut i: usize = 0;
        proof {
            reveal(Seq::filter);
            assert(out@.map_values(|c: ArticleCard| c@) =~= full.take(0).filter(pred));
        }
        while i < self.0.len()
            invariant
                0 <= i <= self.0.len(),
                full == self@,
                pred == tag_pred(tag@),
                out@.map_values(|c: ArticleCard| c@) == full.take(i as int).filter(pred),
            decreases self.0.len() - i,
        {
            let ghost prev = out@.map_values(|c: ArticleCard| c@);
            if self.0[i].has_tag(tag) {
                out.push(self.0[i].clone());
                proof {
                    assert(out@.map_values(|c: ArticleCard| c@) =~= prev.push(full[i as int]));
                }
            }
            proof {
                reveal(Seq::filter);
                assert(full.take(i + 1).drop_last() =~= full.take(i as int));
                assert(full.take(i + 1).last() == full[i as int]);
            }
            i = i + 1;
        }
        proof {
            assert(full.take(self.0.len() as int) =~= full);
        }
        let found = out.len() > 0;
        (ArticleList(out), found)
    }

    /// The combined query: filter by category first; if nothing is in the
    /// category, stop there and report no match, leaving the tag filter
    /// unapplied; otherwise filter the intermediate result by tag.
    pub fn search_all(&self, category: &str, tag: &str) -> (r: (ArticleList, bool))
        ensures
            ({
                let cats = self@.filter(cat_pred(category@));
                &&& cats.len() == 0 ==> r.0@ == cats && r.1 == false
                &&& cats.len() > 0 ==> r.0@ == cats.filter(tag_pred(tag@)) && r.1 == (r.0@.len()
                    > 0)
            }),
    {
        let (articles, found_category) = self.in_category(category);
        if found_category {
            let (articles, found_tag) = articles.has_tag(tag);
            if found_tag {
                (articles, true)
            } else {
                (articles, false)
            }
        } else {
            (articles, false)
        }
    }

    /// Answers a request with an optional tag and an optional category:
    /// no criterion selects nothing, a single criterion applies its filter,
    /// and both criteria apply the combined short-circuiting query.
    pub fn select(&self, tag: Option<&str>, category: Option<&str>) -> (r: ArticleList)
        ensures
            ({
                match (tag, category) {
                    (Option::None, Option::None) => r@ == Seq::<ArticleCardView>::empty(),
                    (Option::None, Option::Some(c)) => r@ == self@.filter(cat_pred(c@)),
                    (Option::Some(t), Option::None) => r@ == self@.filter(tag_pred(t@)),
                    (Option::Some(t), Option::Some(c)) => ({
                        let cats = self@.filter(cat_pred(c@));
                        if cats.len() == 0 {
                            r@ == cats
                        } else {
                            r@ == cats.filter(tag_pred(t@))
                        }
                    }),
                }
            }),
    {
        match (tag, category) {
            (None, None) => {
                proof {
                    assert(Seq::<ArticleCard>::empty().map_values(|c: ArticleCard| c@)
                        =~= Seq::<ArticleCardView>::empty());
                }
                ArticleList(Vec::new())
            },
            (None, Some(category)) => {
                let (articles, _) = self.in_category(category);
                articles
            },
            (Some(tag), None) => {
                let (articles, _) = self.has_tag(tag);
                articles
            },
            (Some(tag), Some(category)) => {
                let (articles, _) = self.search_all(category, tag);
                articles
            },
        }
    }
}

fn char_is_digit(c: char) -> (r: bool)
    ensures
        r == is_digit(c),
{
    let u = c as u32;
    48 <= u && u <= 57
}

fn char_digit(c: char) -> (r: u32)
    requires
        is_digit(c),
    ensures
        r as int == crate::date::digit_val(c),
        r < 10,
{
    (c as u32) - 48
}

fn days_in_month_of(y: u32, m: u32) -> (r: u32)
    requires
        1 <= m <= 12,
    ensures
        r as int == days_in_month(y as int, m as int),
{
    if m == 2 {
        if y % 4 == 0 && (y % 100 != 0 || y % 400 == 0) {
            29
        } else {
            28
        }
    } else if m == 4 || m == 6 || m == 9 || m == 11 {
        30
    } else {
        31
    }
}

} // verus!
