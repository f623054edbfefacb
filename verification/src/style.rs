use vstd::prelude::*;

verus! {

/// The stylesheet text in effect: the user's own when it is not empty,
/// else the default one.
pub open spec fn base_css(user_css: Seq<char>, default_css: Seq<char>) -> Seq<char> {
    if user_css.len() > 0 {
        user_css
    } else {
        default_css
    }
}

/// A non-empty user stylesheet is used as it is, whatever it holds; the
/// default is used only in place of an empty one.
pub proof fn lemma_user_stylesheet_is_kept_whole(user_css: Seq<char>, default_css: Seq<char>)
    ensures
        user_css.len() > 0 ==> base_css(user_css, default_css) == user_css,
        user_css.len() == 0 ==> base_css(user_css, default_css) == default_css,
{
}

/// The stylesheet the launcher applies: the colours generated by pywal, when
/// there are any, followed by the user's stylesheet, or the default one when
/// the user's is empty. Later rules win, so the user's styles override the
/// generated colours.
pub fn get_css(user_css: &str, default_css: &str, pywal_css: Option<&str>) -> (css: String)
    ensures
        css@ == match pywal_css {
            Some(p) => p@ + base_css(user_css@, default_css@),
            None => base_css(user_css@, default_css@),
        },
{
    let mut content = String::new();
    if let Some(p) = pywal_css {
        content.append(p);
    }
    if !user_css.is_empty() {
        content.append(user_css);
    } else {
        content.append(default_css);
    }
    content
}

} // verus!
