//! The style sheet that switches between the light and the dark rendering of
//! themed diagrams, put into a chapter before its first themed diagram.

use vstd::prelude::*;

verus! {

/// The `id` of the injected `style` element.
pub const STYLE_ID: &'static str = "mdbook-modern-dot-theme";

/// Shows the light rendering under mdBook's light themes and the dark one under
/// its dark themes (coal, navy, ayu).
pub const THEME_CSS: &'static str = ".theme-diagram .diagram-dark {
  display: none;
}
.coal .theme-diagram .diagram-light,
.navy .theme-diagram .diagram-light,
.ayu .theme-diagram .diagram-light {
  display: none;
}
.coal .theme-diagram .diagram-dark,
.navy .theme-diagram .diagram-dark,
.ayu .theme-diagram .diagram-dark {
  display: block;
}";

/// The `style` element that carries [`THEME_CSS`].
pub open spec fn style_tag() -> Seq<char> {
    "<style id=\""@ + STYLE_ID@ + "\">\n"@ + THEME_CSS@ + "\n</style>"@
}

/// What one take hands out from an injector that has or has not handed out
/// the style element yet.
pub open spec fn taken(emitted: bool) -> Option<Seq<char>> {
    if emitted {
        None
    } else {
        Some(style_tag())
    }
}

/// What `n` takes in a row hand out, from an injector in the given state.
pub open spec fn takes(emitted: bool, n: nat) -> Seq<Option<Seq<char>>>
    decreases n,
{
    if n == 0 {
        Seq::empty()
    } else {
        seq![taken(emitted)] + takes(true, (n - 1) as nat)
    }
}

/// Hands out the theme style element once: one injector serves one chapter.
#[derive(Debug)]
pub struct ThemeCssInjector {
    emitted: bool,
}

impl ThemeCssInjector {
    /// Whether the style element has been handed out already.
    pub closed spec fn emitted(&self) -> bool {
        self.emitted
    }

    /// The style element the first time, nothing afterwards.
    pub fn take_style_tag(&mut self) -> (r: Option<String>)
        ensures
            final(self).emitted(),
            match r {
                Some(s) => !old(self).emitted() && s@ == style_tag(),
                None => old(self).emitted(),
            },
            match r {
                Some(s) => taken(old(self).emitted()) == Some(s@),
                None => taken(old(self).emitted()) is None,
            },
    {
        if self.emitted {
            return None;
        }
        self.emitted = true;
        let mut s = String::from_str("<style id=\"");
        s.append(STYLE_ID);
        s.append("\">\n");
        s.append(THEME_CSS);
        s.append("\n</style>");
        Some(s)
    }
}

impl Default for ThemeCssInjector {
    fn default() -> (r: Self)
        ensures
            !r.emitted(),
    {
        ThemeCssInjector { emitted: false }
    }
}

proof fn lemma_takes_after_emitted(n: nat)
    ensures
        takes(true, n).len() == n,
        forall|k: int| 0 <= k < n ==> #[trigger] takes(true, n)[k] is None,
    decreases n,
{
    if n > 0 {
        lemma_takes_after_emitted((n - 1) as nat);
        let rest = takes(true, (n - 1) as nat);
        assert forall|k: int| 0 <= k < n implies #[trigger] takes(true, n)[k] is None by {
            if k > 0 {
                assert(takes(true, n)[k] == rest[k - 1]);
            }
        }
    }
}

/// A fresh injector hands out the style element exactly once over any number
/// of takes: the first take gets it and every later take gets nothing.
pub proof fn law_style_tag_handed_out_once(n: nat)
    requires
        n >= 1,
    ensures
        takes(false, n).len() == n,
        takes(false, n)[0] == Some(style_tag()),
        forall|k: int| 1 <= k < n ==> #[trigger] takes(false, n)[k] is None,
{
    lemma_takes_after_emitted((n - 1) as nat);
    let rest = takes(true, (n - 1) as nat);
    assert forall|k: int| 1 <= k < n implies #[trigger] takes(false, n)[k] is None by {
        assert(takes(false, n)[k] == rest[k - 1]);
    }
}

} // verus!
