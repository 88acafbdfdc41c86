//! Autoreply rules: a guild's members add and remove triggers, and every
//! message that contains a trigger of its guild is answered with the
//! replies of those rules.
use crate::rng::roll_ratio;
use crate::text::{
    contains_chars, contains_seq, extend_chars, extend_str, first_chars, from_chars, lowercase,
    lowercase_of, replace_all, replace_all_chars, to_chars, truncate,
};
use vstd::prelude::*;

verus! {

/// One autoreply rule: messages of `guild` that contain `trigger` are
/// answered with `reply`.
pub struct Rule {
    pub trigger: String,
    pub reply: String,
    pub guild: u64,
}

/// What a rule holds.
pub struct RuleView {
    pub trigger: Seq<char>,
    pub reply: Seq<char>,
    pub guild: u64,
}

impl View for Rule {
    type V = RuleView;

    open spec fn view(&self) -> RuleView {
        RuleView { trigger: self.trigger@, reply: self.reply@, guild: self.guild }
    }
}

impl Rule {
    /// A copy of the rule.
    pub fn duplicate(&self) -> (r: Rule)
        ensures
            r@ == self@,
    {
        Rule { trigger: self.trigger.clone(), reply: self.reply.clone(), guild: self.guild }
    }
}

/// Why a rule could not be added or removed.
#[derive(Clone, Copy, Debug, PartialEq, Eq, Structural)]
pub enum RuleError {
    /// The guild already has a rule with that trigger.
    AlreadyExists,
    /// The guild has no rule with that trigger.
    NotFound,
}

/// The rules' views.
pub open spec fn rule_views(v: Seq<Rule>) -> Seq<RuleView> {
    Seq::new(v.len(), |i: int| v[i]@)
}

/// `r` is the rule of `guild` for `trigger`.
pub open spec fn same_key(r: RuleView, trigger: Seq<char>, guild: u64) -> bool {
    r.trigger == trigger && r.guild == guild
}

/// Some rule of `guild` has this trigger.
pub open spec fn has_rule_spec(rules: Seq<RuleView>, trigger: Seq<char>, guild: u64) -> bool {
    exists|i: int| 0 <= i < rules.len() && same_key(#[trigger] rules[i], trigger, guild)
}

/// No guild has two rules with the same trigger.
pub open spec fn unique_keys(rules: Seq<RuleView>) -> bool {
    forall|i: int, j: int|
        0 <= i < rules.len() && 0 <= j < rules.len() && i != j ==> !same_key(
            #[trigger] rules[i],
            #[trigger] rules[j].trigger,
            rules[j].guild,
        )
}

/// The rules without the one of `guild` for `trigger`.
pub open spec fn without(rules: Seq<RuleView>, trigger: Seq<char>, guild: u64) -> Seq<RuleView> {
    rules.filter(|r: RuleView| !same_key(r, trigger, guild))
}

/// The replies of the rules of `guild` whose trigger occurs in `content`,
/// one after the other in the rules' order.
pub open spec fn replies_for(rules: Seq<RuleView>, guild: u64, content: Seq<char>) -> Seq<char>
    decreases rules.len(),
{
    if rules.len() == 0 {
        Seq::<char>::empty()
    } else {
        let r = rules.last();
        let pre = replies_for(rules.drop_last(), guild, content);
        if r.guild == guild && contains_seq(content, r.trigger) {
            pre + r.reply
        } else {
            pre
        }
    }
}

/// One line of the rule list: the trigger, then the first 64 characters of
/// the reply with every line break replaced by `- - `.
pub open spec fn list_entry(r: RuleView) -> Seq<char> {
    "\n- "@ + r.trigger + "\n- - "@ + replace_all(first_chars(r.reply, 64), "\n"@, "- - "@)
}

/// The rule list of `guild`.
pub open spec fn list_text_spec(rules: Seq<RuleView>, guild: u64) -> Seq<char>
    decreases rules.len(),
{
    if rules.len() == 0 {
        Seq::<char>::empty()
    } else {
        let pre = list_text_spec(rules.drop_last(), guild);
        if rules.last().guild == guild {
            pre + list_entry(rules.last())
        } else {
            pre
        }
    }
}

/// The autoreply rules of all guilds.
pub struct RuleSet {
    rules: Vec<Rule>,
}

impl View for RuleSet {
    type V = Seq<RuleView>;

    closed spec fn view(&self) -> Seq<RuleView> {
        rule_views(self.rules@)
    }
}

impl RuleSet {
    /// A rule set holding `rules`, in that order.
    pub fn new(rules: Vec<Rule>) -> (r: RuleSet)
        ensures
            r@ == rule_views(rules@),
    {
        RuleSet { rules }
    }

    /// The number of rules.
    pub fn len(&self) -> (r: usize)
        ensures
            r == self@.len(),
    {
        self.rules.len()
    }

    /// Rule number `i`.
    pub fn get(&self, i: usize) -> (r: &Rule)
        requires
            i < self@.len(),
        ensures
            r@ == self@[i as int],
    {
        &self.rules[i]
    }

    /// Whether `guild` has a rule for exactly this trigger.
    pub fn has_rule(&self, trigger: &str, guild: u64) -> (r: bool)
        ensures
            r == has_rule_spec(self@, trigger@, guild),
    {
        let t = to_chars(trigger);
        let mut i: usize = 0;
        while i < self.rules.len()
            invariant
                i <= self.rules@.len(),
                t@ == trigger@,
                forall|j: int| 0 <= j < i ==> !same_key(#[trigger] self@[j], trigger@, guild),
            decreases self.rules.len() - i,
        {
            let r = &self.rules[i];
            if r.guild == guild {
                let rt = to_chars(r.trigger.as_str());
                if rt.len() == t.len() && crate::text::starts_with_chars(rt.as_slice(), t.as_slice()) {
                    assert(rt@ =~= rt@.take(t@.len() as int));
                    assert(same_key(self@[i as int], trigger@, guild));
                    return true;
                }
                proof {
                    if rt@ == t@ {
                        assert(rt@.take(t@.len() as int) =~= rt@);
                    }
                }
            }
            i = i + 1;
        }
        false
    }

    /// Adds the rule of `guild` that answers `trigger` (lowercased) with
    /// `reply`, unless the guild already has a rule for that trigger.
    pub fn add(&mut self, trigger: &str, reply: String, guild: u64) -> (r: Result<(), RuleError>)
        ensures
            has_rule_spec(old(self)@, lowercase_of(trigger@), guild) ==> r == Err::<(), RuleError>(
                RuleError::AlreadyExists,
            ) && final(self)@ == old(self)@,
            !has_rule_spec(old(self)@, lowercase_of(trigger@), guild) ==> r is Ok && final(self)@ == old(
                self,
            )@.push(RuleView { trigger: lowercase_of(trigger@), reply: reply@, guild }),
    {
        let t = lowercase(trigger);
        if self.has_rule(t.as_str(), guild) {
            return Err(RuleError::AlreadyExists);
        }
        self.rules.push(Rule { trigger: t, reply, guild });
        assert(self@ =~= old(self)@.push(RuleView { trigger: lowercase_of(trigger@), reply: reply@, guild }));
        Ok(())
    }

    /// Removes the rule of `guild` for `trigger` (lowercased), if there is
    /// one; all other rules stay, in their order.
    pub fn remove(&mut self, trigger: &str, guild: u64) -> (r: Result<(), RuleError>)
        ensures
            !has_rule_spec(old(self)@, lowercase_of(trigger@), guild) ==> r == Err::<(), RuleError>(
                RuleError::NotFound,
            ) && final(self)@ == old(self)@,
            has_rule_spec(old(self)@, lowercase_of(trigger@), guild) ==> r is Ok && final(self)@ == without(
                old(self)@,
                lowercase_of(trigger@),
                guild,
            ),
    {
        let t = lowercase(trigger);
        if !self.has_rule(t.as_str(), guild) {
            return Err(RuleError::NotFound);
        }
        let tc = to_chars(t.as_str());
        let ghost key = lowercase_of(trigger@);
        let ghost pred = |r: RuleView| !same_key(r, key, guild);
        let mut kept: Vec<Rule> = Vec::new();
        let mut i: usize = 0;
        assert(old(self)@.take(0).filter(pred) =~= Seq::<RuleView>::empty());
        while i < self.rules.len()
            invariant
                i <= self.rules@.len(),
                self@ == old(self)@,
                tc@ == key,
                pred == (|r: RuleView| !same_key(r, key, guild)),
                rule_views(kept@) == old(self)@.take(i as int).filter(pred),
            decreases self.rules.len() - i,
        {
            let r = &self.rules[i];
            let rt = to_chars(r.trigger.as_str());
            let same = r.guild == guild && rt.len() == tc.len() && crate::text::starts_with_chars(
                rt.as_slice(),
                tc.as_slice(),
            );
            proof {
                if same {
                    assert(rt@ =~= rt@.take(tc@.len() as int));
                }
                if rt@ == tc@ {
                    assert(rt@.take(tc@.len() as int) =~= rt@);
                }
                assert(same == same_key(self@[i as int], key, guild));
                let s = old(self)@.take(i + 1);
                assert(s.drop_last() =~= old(self)@.take(i as int));
                assert(s.last() == self@[i as int]);
                reveal(Seq::filter);
            }
            if !same {
                kept.push(r.duplicate());
                assert(rule_views(kept@) =~= old(self)@.take(i + 1).filter(pred));
            } else {
                assert(rule_views(kept@) =~= old(self)@.take(i + 1).filter(pred));
            }
            i = i + 1;
        }
        assert(old(self)@.take(i as int) =~= old(self)@);
        self.rules = kept;
        Ok(())
    }

    /// The replies of the rules of `guild` whose trigger occurs in `content`,
    /// one after the other.
    pub fn replies(&self, guild: u64, content: &str) -> (r: String)
        ensures
            r@ == replies_for(self@, guild, content@),
    {
        let c = to_chars(content);
        let mut out: Vec<char> = Vec::new();
        let mut i: usize = 0;
        assert(self@.take(0) =~= Seq::<RuleView>::empty());
        while i < self.rules.len()
            invariant
                i <= self.rules@.len(),
                c@ == content@,
                out@ == replies_for(self@.take(i as int), guild, content@),
            decreases self.rules.len() - i,
        {
            let r = &self.rules[i];
            let ghost s = self@.take(i + 1);
            assert(s.drop_last() =~= self@.take(i as int));
            assert(s.last() == self@[i as int]);
            if r.guild == guild {
                let t = to_chars(r.trigger.as_str());
                if contains_chars(c.as_slice(), t.as_slice()) {
                    extend_str(&mut out, r.reply.as_str());
                }
            }
            i = i + 1;
        }
        assert(self@.take(i as int) =~= self@);
        from_chars(out.as_slice())
    }

    /// The answer to a message: nothing for messages of bots or outside
    /// guilds; otherwise the replies of the guild's rules whose trigger occurs
    /// in the lowercased message, or nothing if there are none.
    pub fn autoreply(&self, author_is_bot: bool, guild: Option<u64>, content: &str) -> (r: Option<
        String,
    >)
        ensures
            (author_is_bot || guild is None) ==> r is None,
            !(author_is_bot || guild is None) ==> ({
                let out = replies_for(self@, guild->0, lowercase_of(content@));
                &&& out.len() == 0 ==> r is None
                &&& out.len() > 0 ==> r is Some && r->0@ == out
            }),
    {
        if author_is_bot {
            return None;
        }
        match guild {
            None => None,
            Some(g) => {
                let low = lowercase(content);
                let out = self.replies(g, low.as_str());
                if out.as_str().is_empty() {
                    None
                } else {
                    Some(out)
                }
            },
        }
    }

    /// The rule list of `guild`: for each of its rules, a line with the
    /// trigger and a line with the start of the reply.
    pub fn list_text(&self, guild: u64) -> (r: String)
        ensures
            r@ == list_text_spec(self@, guild),
    {
        let nl = to_chars("\n");
        let dashes = to_chars("- - ");
        proof {
            reveal_strlit("\n");
        }
        let mut out: Vec<char> = Vec::new();
        let mut i: usize = 0;
        assert(self@.take(0) =~= Seq::<RuleView>::empty());
        while i < self.rules.len()
            invariant
                i <= self.rules@.len(),
                nl@ == "\n"@,
                nl@.len() > 0,
                dashes@ == "- - "@,
                out@ == list_text_spec(self@.take(i as int), guild),
            decreases self.rules.len() - i,
        {
            let r = &self.rules[i];
            let ghost s = self@.take(i + 1);
            assert(s.drop_last() =~= self@.take(i as int));
            assert(s.last() == self@[i as int]);
            if r.guild == guild {
                let short = truncate(r.reply.as_str(), 64);
                let sc = to_chars(short);
                let fixed = replace_all_chars(sc.as_slice(), nl.as_slice(), dashes.as_slice());
                let ghost before = out@;
                extend_str(&mut out, "\n- ");
                extend_str(&mut out, r.trigger.as_str());
                extend_str(&mut out, "\n- - ");
                extend_chars(&mut out, fixed.as_slice());
                assert(out@ =~= before + list_entry(self@[i as int]));
            }
            i = i + 1;
        }
        assert(self@.take(i as int) =~= self@);
        from_chars(out.as_slice())
    }
}

/// The answer of the older message handler, given whether the rare prank
/// line comes first: the replies of all rules (of any guild) whose trigger
/// occurs in the message as written, separated by spaces; nothing for bots
/// or when the answer would be empty.
pub open spec fn message_reply_spec(rules: Seq<RuleView>, author_is_bot: bool, prank: bool, content: Seq<char>) -> Option<Seq<char>> {
    if author_is_bot {
        None
    } else {
        let out = (if prank { "*pees in your ass*"@ } else { Seq::<char>::empty() }) + crate::text::join_with(
            matching_replies(rules, content),
            " "@,
        );
        if out.len() == 0 {
            None
        } else {
            Some(out)
        }
    }
}

/// The replies of all rules whose trigger occurs in `content`, in order.
pub open spec fn matching_replies(rules: Seq<RuleView>, content: Seq<char>) -> Seq<Seq<char>>
    decreases rules.len(),
{
    if rules.len() == 0 {
        Seq::<Seq<char>>::empty()
    } else {
        let pre = matching_replies(rules.drop_last(), content);
        if contains_seq(content, rules.last().trigger) {
            pre.push(rules.last().reply)
        } else {
            pre
        }
    }
}


impl RuleSet {
    /// The answer of the older message handler with the prank roll given.
    pub fn message_reply_with(&self, author_is_bot: bool, prank: bool, content: &str) -> (r: Option<String>)
        ensures
            r matches Some(s) ==> message_reply_spec(self@, author_is_bot, prank, content@) == Some(s@),
            r is None ==> message_reply_spec(self@, author_is_bot, prank, content@) is None,
    {
        if author_is_bot {
            return None;
        }
        let c = to_chars(content);
        let mut out: Vec<char> = Vec::new();
        if prank {
            extend_str(&mut out, "*pees in your ass*");
        }
        let ghost head = out@;
        let mut joined: Vec<char> = Vec::new();
        let mut count: usize = 0;
        let mut i: usize = 0;
        assert(self@.take(0) =~= Seq::<RuleView>::empty());
        while i < self.rules.len()
            invariant
                i <= self.rules@.len(),
                c@ == content@,
                count == matching_replies(self@.take(i as int), content@).len(),
                count <= i,
                joined@ == crate::text::join_with(matching_replies(self@.take(i as int), content@), " "@),
            decreases self.rules.len() - i,
        {
            let r = &self.rules[i];
            let ghost s = self@.take(i + 1);
            assert(s.drop_last() =~= self@.take(i as int));
            assert(s.last() == self@[i as int]);
            let t = to_chars(r.trigger.as_str());
            if contains_chars(c.as_slice(), t.as_slice()) {
                let ghost pre = matching_replies(self@.take(i as int), content@);
                let ghost now = pre.push(self@[i as int].reply);
                assert(now.drop_last() =~= pre);
                if count > 0 {
                    extend_str(&mut joined, " ");
                }
                extend_str(&mut joined, r.reply.as_str());
                assert(joined@ =~= crate::text::join_with(now, " "@));
                count = count + 1;
            }
            i = i + 1;
        }
        assert(self@.take(i as int) =~= self@);
        extend_chars(&mut out, joined.as_slice());
        if out.len() == 0 {
            None
        } else {
            Some(from_chars(out.as_slice()))
        }
    }

    /// The answer of the older message handler: a rare prank line (chance
    /// 1/5000) followed by the replies of all rules whose trigger occurs in
    /// the message.
    pub fn message_reply(&self, author_is_bot: bool, content: &str) -> (r: Option<String>)
        ensures
            exists|prank: bool|
                {
                    &&& r matches Some(s) ==> message_reply_spec(self@, author_is_bot, prank, content@) == Some(s@)
                    &&& r is None ==> message_reply_spec(self@, author_is_bot, prank, content@) is None
                },
    {
        if author_is_bot {
            return self.message_reply_with(true, false, content);
        }
        let prank = roll_ratio(1, 5000);
        self.message_reply_with(false, prank, content)
    }
}

/// The reply when the rule to add already exists.
pub open spec fn exists_text_spec(scolding: Seq<char>) -> Seq<char> {
    "Rule already exists, delete it if you want to replace it.\n"@ + scolding
}

/// The reply when a rule was added.
pub open spec fn added_text_spec(trigger: Seq<char>, praise: Seq<char>) -> Seq<char> {
    "Added rule `"@ + trigger + "`!\n"@ + praise
}

/// The reply when the rule to remove does not exist.
pub open spec fn not_found_text_spec(scolding: Seq<char>) -> Seq<char> {
    "The rule you're trying to remove doesn't exist.\n"@ + scolding
}

/// The reply when a rule was removed.
pub open spec fn removed_text_spec(trigger: Seq<char>, praise: Seq<char>) -> Seq<char> {
    "Removed rule `"@ + trigger + "`\n"@ + praise
}

/// The reply when the author lacks the role that editing rules requires.
pub open spec fn missing_role_text_spec(role: u64, scolding: Seq<char>) -> Seq<char> {
    "You're missing the role required for the command, are you sure you have <@&"@ + crate::text::decimal(
        role as nat,
    ) + ">?\n"@ + scolding
}

/// The reply when the rule to add already exists.
pub fn exists_text(scolding: &str) -> (r: String)
    ensures
        r@ == exists_text_spec(scolding@),
{
    let mut v: Vec<char> = Vec::new();
    extend_str(&mut v, "Rule already exists, delete it if you want to replace it.\n");
    extend_str(&mut v, scolding);
    from_chars(v.as_slice())
}

/// The reply when a rule was added.
pub fn added_text(trigger: &str, praise: &str) -> (r: String)
    ensures
        r@ == added_text_spec(trigger@, praise@),
{
    let mut v: Vec<char> = Vec::new();
    extend_str(&mut v, "Added rule `");
    extend_str(&mut v, trigger);
    extend_str(&mut v, "`!\n");
    extend_str(&mut v, praise);
    from_chars(v.as_slice())
}

/// The reply when the rule to remove does not exist.
pub fn not_found_text(scolding: &str) -> (r: String)
    ensures
        r@ == not_found_text_spec(scolding@),
{
    let mut v: Vec<char> = Vec::new();
    extend_str(&mut v, "The rule you're trying to remove doesn't exist.\n");
    extend_str(&mut v, scolding);
    from_chars(v.as_slice())
}

/// The reply when a rule was removed.
pub fn removed_text(trigger: &str, praise: &str) -> (r: String)
    ensures
        r@ == removed_text_spec(trigger@, praise@),
{
    let mut v: Vec<char> = Vec::new();
    extend_str(&mut v, "Removed rule `");
    extend_str(&mut v, trigger);
    extend_str(&mut v, "`\n");
    extend_str(&mut v, praise);
    from_chars(v.as_slice())
}

/// The reply when the author lacks the role that editing rules requires.
pub fn missing_role_text(role: u64, scolding: &str) -> (r: String)
    ensures
        r@ == missing_role_text_spec(role, scolding@),
{
    let mut v: Vec<char> = Vec::new();
    extend_str(&mut v, "You're missing the role required for the command, are you sure you have <@&");
    crate::text::push_decimal(&mut v, role);
    extend_str(&mut v, ">?\n");
    extend_str(&mut v, scolding);
    from_chars(v.as_slice())
}

/// Whether a member with `roles` may edit the rules: always when the guild
/// sets no reply role, otherwise only with that role.
pub fn has_reply_role(reply_role: Option<u64>, roles: &[u64]) -> (r: bool)
    ensures
        r == match reply_role {
            None => true,
            Some(role) => roles@.contains(role),
        },
{
    match reply_role {
        None => true,
        Some(role) => {
            let mut i: usize = 0;
            while i < roles.len()
                invariant
                    i <= roles@.len(),
                    reply_role == Some(role),
                    forall|j: int| 0 <= j < i ==> roles@[j] != role,
                decreases roles.len() - i,
            {
                if roles[i] == role {
                    assert(roles@[i as int] == role);
                    return true;
                }
                i = i + 1;
            }
            false
        },
    }
}

/// Adding a rule keeps triggers unique within each guild.
pub proof fn law_add_keeps_keys_unique(before: Seq<RuleView>, trigger: Seq<char>, reply: Seq<char>, guild: u64)
    requires
        unique_keys(before),
        !has_rule_spec(before, trigger, guild),
    ensures
        unique_keys(before.push(RuleView { trigger, reply, guild })),
{
    let after = before.push(RuleView { trigger, reply, guild });
    assert forall|i: int, j: int|
        0 <= i < after.len() && 0 <= j < after.len() && i != j implies !same_key(
            #[trigger] after[i],
            #[trigger] after[j].trigger,
            after[j].guild,
        ) by {
        if i == before.len() as int {
            assert(after[j] == before[j]);
            assert(!same_key(before[j], trigger, guild));
        } else if j == before.len() as int {
            assert(after[i] == before[i]);
            assert(!same_key(before[i], trigger, guild));
        } else {
            assert(after[i] == before[i]);
            assert(after[j] == before[j]);
        }
    }
}


/// Removing a key that no rule has changes nothing.
proof fn lemma_without_absent(rules: Seq<RuleView>, trigger: Seq<char>, guild: u64)
    requires
        !has_rule_spec(rules, trigger, guild),
    ensures
        without(rules, trigger, guild) == rules,
    decreases rules.len(),
{
    reveal(Seq::filter);
    if rules.len() > 0 {
        assert(!has_rule_spec(rules.drop_last(), trigger, guild)) by {
            if has_rule_spec(rules.drop_last(), trigger, guild) {
                let i = choose|i: int| 0 <= i < rules.drop_last().len() && same_key(#[trigger] rules.drop_last()[i], trigger, guild);
                assert(rules[i] == rules.drop_last()[i]);
            }
        }
        lemma_without_absent(rules.drop_last(), trigger, guild);
        assert(!same_key(rules[rules.len() - 1], trigger, guild));
        assert(rules.drop_last().push(rules.last()) =~= rules);
    }
}

/// Removing a rule right after adding it gives back the rules as they were.
pub proof fn law_remove_undoes_add(before: Seq<RuleView>, trigger: Seq<char>, reply: Seq<char>, guild: u64)
    requires
        !has_rule_spec(before, trigger, guild),
    ensures
        without(before.push(RuleView { trigger, reply, guild }), trigger, guild) == before,
{
    reveal(Seq::filter);
    let after = before.push(RuleView { trigger, reply, guild });
    assert(after.drop_last() =~= before);
    lemma_without_absent(before, trigger, guild);
}

/// After a rule is added, a message of its guild that contains its trigger
/// is answered with the replies it got before followed by the new reply;
/// any other message gets the same answer as before.
pub proof fn law_added_rule_answers(
    before: Seq<RuleView>,
    trigger: Seq<char>,
    reply: Seq<char>,
    guild: u64,
    message_guild: u64,
    content: Seq<char>,
)
    ensures
        replies_for(before.push(RuleView { trigger, reply, guild }), message_guild, content) == if message_guild == guild && contains_seq(content, trigger) {
            replies_for(before, message_guild, content) + reply
        } else {
            replies_for(before, message_guild, content)
        },
{
    let after = before.push(RuleView { trigger, reply, guild });
    assert(after.drop_last() =~= before);
}

/// Removing a rule leaves the answers in every other guild as they were.
pub proof fn law_remove_spares_other_guilds(
    rules: Seq<RuleView>,
    trigger: Seq<char>,
    guild: u64,
    other: u64,
    content: Seq<char>,
)
    requires
        other != guild,
    ensures
        replies_for(without(rules, trigger, guild), other, content) == replies_for(rules, other, content),
    decreases rules.len(),
{
    reveal(Seq::filter);
    if rules.len() > 0 {
        law_remove_spares_other_guilds(rules.drop_last(), trigger, guild, other, content);
        let w = without(rules.drop_last(), trigger, guild);
        if !same_key(rules.last(), trigger, guild) {
            assert(w.push(rules.last()).drop_last() =~= w);
        }
    }
}

/// After a rule is removed, its guild has no rule for that trigger.
pub proof fn law_remove_clears_key(rules: Seq<RuleView>, trigger: Seq<char>, guild: u64)
    ensures
        !has_rule_spec(without(rules, trigger, guild), trigger, guild),
{
    broadcast use vstd::seq_lib::group_filter_ensures;

    let w = without(rules, trigger, guild);
    if has_rule_spec(w, trigger, guild) {
        let i = choose|i: int| 0 <= i < w.len() && same_key(#[trigger] w[i], trigger, guild);
        let pred = |r: RuleView| !same_key(r, trigger, guild);
        assert(pred(w[i]));
    }
}

} // verus!
