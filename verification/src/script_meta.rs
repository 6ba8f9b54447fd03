//! Script-module metadata: the module-system classification and the
//! cache-facing metadata a script module carries between builds (its AST in
//! the opaque encoded form the cache layer owns, comment tables keyed by
//! byte offset, HMR self-accept flags, and custom entries as raw bytes).

use vstd::prelude::*;

use crate::ids::ModuleId;

verus! {

/// Detected module semantics of a script module.
pub enum ModuleSystem {
    UnInitial,
    EsModule,
    CommonJs,
    /// Both commonjs and es-module constructs were seen.
    Hybrid,
    Custom(String),
}

/// How two classifications combine: an uninitialized observation changes
/// nothing; es-module and commonjs together make a hybrid; a hybrid stays a
/// hybrid; a custom classification yields to the new observation.
pub open spec fn merge_spec(a: ModuleSystem, b: ModuleSystem) -> ModuleSystem {
    if b is UnInitial {
        a
    } else {
        match a {
            ModuleSystem::UnInitial => b,
            ModuleSystem::EsModule => if b is CommonJs {
                ModuleSystem::Hybrid
            } else {
                b
            },
            ModuleSystem::CommonJs => if b is EsModule {
                ModuleSystem::Hybrid
            } else {
                b
            },
            ModuleSystem::Hybrid => ModuleSystem::Hybrid,
            ModuleSystem::Custom(_) => b,
        }
    }
}

impl ModuleSystem {
    pub fn merge(&self, module_system: ModuleSystem) -> (r: ModuleSystem)
        ensures
            r == merge_spec(*self, module_system),
    {
        if matches!(module_system, ModuleSystem::UnInitial) {
            return self.clone();
        }
        match self {
            ModuleSystem::UnInitial => module_system,
            ModuleSystem::EsModule => {
                if matches!(module_system, ModuleSystem::CommonJs) {
                    ModuleSystem::Hybrid
                } else {
                    module_system
                }
            },
            ModuleSystem::CommonJs => {
                if matches!(module_system, ModuleSystem::EsModule) {
                    ModuleSystem::Hybrid
                } else {
                    module_system
                }
            },
            ModuleSystem::Hybrid => ModuleSystem::Hybrid,
            ModuleSystem::Custom(_) => module_system,
        }
    }
}

impl Clone for ModuleSystem {
    fn clone(&self) -> (r: Self)
        ensures
            r == *self,
    {
        match self {
            ModuleSystem::UnInitial => ModuleSystem::UnInitial,
            ModuleSystem::EsModule => ModuleSystem::EsModule,
            ModuleSystem::CommonJs => ModuleSystem::CommonJs,
            ModuleSystem::Hybrid => ModuleSystem::Hybrid,
            ModuleSystem::Custom(s) => ModuleSystem::Custom(s.clone()),
        }
    }
}

/// A script module's program text as the opaque encoded form the cache
/// layer persists; an empty body with no shebang stands for the empty
/// program.
pub struct AstModule {
    pub body: Vec<u8>,
    pub shebang: Option<String>,
}

impl AstModule {
    pub fn empty() -> (r: AstModule)
        ensures
            r.body@ == Seq::<u8>::empty(),
            r.shebang is None,
    {
        AstModule { body: Vec::new(), shebang: None }
    }
}

/// One source comment.
pub struct Comment {
    /// True for a line comment, false for a block comment.
    pub line: bool,
    pub text: String,
}

impl Clone for Comment {
    fn clone(&self) -> (r: Self)
        ensures
            r == *self,
    {
        Comment { line: self.line, text: self.text.clone() }
    }
}

/// The comments attached at one byte offset.
pub struct CommentsMetaDataItem {
    pub byte_pos: u32,
    pub comment: Vec<Comment>,
}

impl Clone for CommentsMetaDataItem {
    fn clone(&self) -> (r: Self)
        ensures
            r.byte_pos == self.byte_pos,
            r.comment@ == self.comment@,
    {
        let r = CommentsMetaDataItem { byte_pos: self.byte_pos, comment: self.comment.clone() };
        proof {
            assert(r.comment@ =~= self.comment@);
        }
        r
    }
}

/// Items of two tables are the same comments at the same offsets.
pub open spec fn same_comment_items(a: Seq<CommentsMetaDataItem>, b: Seq<CommentsMetaDataItem>) -> bool {
    b.len() == a.len() && forall|i: int|
        0 <= i < a.len() ==> (#[trigger] b[i]).byte_pos == a[i].byte_pos && b[i].comment@
            == a[i].comment@
}

/// Leading and trailing comment tables, keyed by byte offset.
pub struct CommentsMetaData {
    pub leading: Vec<CommentsMetaDataItem>,
    pub trailing: Vec<CommentsMetaDataItem>,
}

impl Clone for CommentsMetaData {
    fn clone(&self) -> (r: Self)
        ensures
            same_comment_items(self.leading@, r.leading@),
            same_comment_items(self.trailing@, r.trailing@),
    {
        let r = CommentsMetaData {
            leading: self.leading.clone(),
            trailing: self.trailing.clone(),
        };
        proof {
            assert forall|i: int|
                0 <= i < self.leading@.len() implies (#[trigger] r.leading@[i]).byte_pos
                == self.leading@[i].byte_pos && r.leading@[i].comment@
                == self.leading@[i].comment@ by {
                assert(vstd::pervasive::cloned(self.leading@[i], r.leading@[i]));
            }
            assert forall|i: int|
                0 <= i < self.trailing@.len() implies (#[trigger] r.trailing@[i]).byte_pos
                == self.trailing@[i].byte_pos && r.trailing@[i].comment@
                == self.trailing@[i].comment@ by {
                assert(vstd::pervasive::cloned(self.trailing@[i], r.trailing@[i]));
            }
        }
        r
    }
}

impl Default for CommentsMetaData {
    fn default() -> (r: Self)
        ensures
            r.leading@ == Seq::<CommentsMetaDataItem>::empty(),
            r.trailing@ == Seq::<CommentsMetaDataItem>::empty(),
    {
        CommentsMetaData { leading: Vec::new(), trailing: Vec::new() }
    }
}

fn items_from_map(pairs: Vec<(u32, Vec<Comment>)>) -> (r: Vec<CommentsMetaDataItem>)
    ensures
        r@.len() == pairs@.len(),
        forall|i: int|
            0 <= i < pairs@.len() ==> (#[trigger] r@[i]).byte_pos == pairs@[i].0 && r@[i].comment
                == pairs@[i].1,
{
    let ghost orig = pairs@;
    let mut pairs = pairs;
    let mut items: Vec<CommentsMetaDataItem> = Vec::new();
    while pairs.len() > 0
        invariant
            items@.len() + pairs@.len() == orig.len(),
            forall|i: int|
                0 <= i < items@.len() ==> (#[trigger] items@[i]).byte_pos == orig[i].0
                    && items@[i].comment == orig[i].1,
            forall|i: int| 0 <= i < pairs@.len() ==> #[trigger] pairs@[i] == orig[
                items@.len() + i],
        decreases pairs@.len(),
    {
        let pair = pairs.remove(0);
        items.push(CommentsMetaDataItem { byte_pos: pair.0, comment: pair.1 });
    }
    items
}

fn items_into_map(items: Vec<CommentsMetaDataItem>) -> (r: Vec<(u32, Vec<Comment>)>)
    ensures
        r@.len() == items@.len(),
        forall|i: int|
            0 <= i < items@.len() ==> (#[trigger] r@[i]).0 == items@[i].byte_pos && r@[i].1
                == items@[i].comment,
{
    let ghost orig = items@;
    let mut items = items;
    let mut pairs: Vec<(u32, Vec<Comment>)> = Vec::new();
    while items.len() > 0
        invariant
            pairs@.len() + items@.len() == orig.len(),
            forall|i: int|
                0 <= i < pairs@.len() ==> (#[trigger] pairs@[i]).0 == orig[i].byte_pos
                    && pairs@[i].1 == orig[i].comment,
            forall|i: int| 0 <= i < items@.len() ==> #[trigger] items@[i] == orig[
                pairs@.len() + i],
        decreases items@.len(),
    {
        let item = items.remove(0);
        pairs.push((item.byte_pos, item.comment));
    }
    pairs
}

impl CommentsMetaData {
    /// Build the comment tables from the flat (byte offset, comments) pairs
    /// the parser's comment store hands out, leading and trailing each in
    /// their given order.
    pub fn from_maps(
        leading: Vec<(u32, Vec<Comment>)>,
        trailing: Vec<(u32, Vec<Comment>)>,
    ) -> (r: Self)
        ensures
            r.leading@.len() == leading@.len(),
            forall|i: int|
                0 <= i < leading@.len() ==> (#[trigger] r.leading@[i]).byte_pos == leading@[i].0
                    && r.leading@[i].comment == leading@[i].1,
            r.trailing@.len() == trailing@.len(),
            forall|i: int|
                0 <= i < trailing@.len() ==> (#[trigger] r.trailing@[i]).byte_pos == trailing@[i].0
                    && r.trailing@[i].comment == trailing@[i].1,
    {
        CommentsMetaData { leading: items_from_map(leading), trailing: items_from_map(trailing) }
    }

    /// The inverse: flatten the tables back into (byte offset, comments)
    /// pairs for the parser's comment store, in table order.
    pub fn into_maps(self) -> (r: (Vec<(u32, Vec<Comment>)>, Vec<(u32, Vec<Comment>)>))
        ensures
            r.0@.len() == self.leading@.len(),
            forall|i: int|
                0 <= i < self.leading@.len() ==> (#[trigger] r.0@[i]).0 == self.leading@[i].byte_pos
                    && r.0@[i].1 == self.leading@[i].comment,
            r.1@.len() == self.trailing@.len(),
            forall|i: int|
                0 <= i < self.trailing@.len() ==> (#[trigger] r.1@[i]).0
                    == self.trailing@[i].byte_pos && r.1@[i].1 == self.trailing@[i].comment,
    {
        (items_into_map(self.leading), items_into_map(self.trailing))
    }
}

/// Script-specific metadata of a module.
pub struct ScriptModuleMetaData {
    pub ast: AstModule,
    pub top_level_mark: u32,
    pub unresolved_mark: u32,
    pub module_system: ModuleSystem,
    /// True if this module accepts its own hot updates.
    pub hmr_self_accepted: bool,
    pub hmr_accepted_deps: Vec<ModuleId>,
    pub comments: CommentsMetaData,
    pub is_async: bool,
    /// Plugin-owned entries, each already in its serialized form.
    pub custom: Vec<(String, Vec<u8>)>,
}

impl Default for ScriptModuleMetaData {
    fn default() -> (r: Self)
        ensures
            r.ast.body@ == Seq::<u8>::empty(),
            r.ast.shebang is None,
            r.top_level_mark == 0,
            r.unresolved_mark == 0,
            r.module_system is EsModule,
            !r.hmr_self_accepted,
            r.hmr_accepted_deps@ == Seq::<ModuleId>::empty(),
            r.comments.leading@ == Seq::<CommentsMetaDataItem>::empty(),
            r.comments.trailing@ == Seq::<CommentsMetaDataItem>::empty(),
            !r.is_async,
            r.custom@ == Seq::<(String, Vec<u8>)>::empty(),
    {
        ScriptModuleMetaData {
            ast: AstModule::empty(),
            top_level_mark: 0,
            unresolved_mark: 0,
            module_system: ModuleSystem::EsModule,
            hmr_self_accepted: false,
            hmr_accepted_deps: Vec::new(),
            comments: CommentsMetaData { leading: Vec::new(), trailing: Vec::new() },
            is_async: false,
            custom: Vec::new(),
        }
    }
}

impl ScriptModuleMetaData {
    /// Take the program out, leaving the empty program in its place.
    pub fn take_ast(&mut self) -> (ast: AstModule)
        ensures
            ast == old(self).ast,
            final(self).ast.body@ == Seq::<u8>::empty(),
            final(self).ast.shebang is None,
            *final(self) == (ScriptModuleMetaData { ast: final(self).ast, ..*old(self) }),
    {
        let mut tmp = AstModule::empty();
        core::mem::swap(&mut tmp, &mut self.ast);
        tmp
    }

    pub fn set_ast(&mut self, ast: AstModule)
        ensures
            *final(self) == (ScriptModuleMetaData { ast, ..*old(self) }),
    {
        self.ast = ast;
    }

    /// Take the comment tables out, leaving empty ones in their place.
    pub fn take_comments(&mut self) -> (comments: CommentsMetaData)
        ensures
            comments == old(self).comments,
            final(self).comments.leading@ == Seq::<CommentsMetaDataItem>::empty(),
            final(self).comments.trailing@ == Seq::<CommentsMetaDataItem>::empty(),
            *final(self) == (ScriptModuleMetaData { comments: final(self).comments, ..*old(self) }),
    {
        let mut tmp = CommentsMetaData { leading: Vec::new(), trailing: Vec::new() };
        core::mem::swap(&mut tmp, &mut self.comments);
        tmp
    }

    pub fn set_comments(&mut self, comments: CommentsMetaData)
        ensures
            *final(self) == (ScriptModuleMetaData { comments, ..*old(self) }),
    {
        self.comments = comments;
    }

    pub fn is_cjs(&self) -> (r: bool)
        ensures
            r == (self.module_system is CommonJs),
    {
        matches!(self.module_system, ModuleSystem::CommonJs)
    }

    pub fn is_esm(&self) -> (r: bool)
        ensures
            r == (self.module_system is EsModule),
    {
        matches!(self.module_system, ModuleSystem::EsModule)
    }

    pub fn is_hybrid(&self) -> (r: bool)
        ensures
            r == (self.module_system is Hybrid),
    {
        matches!(self.module_system, ModuleSystem::Hybrid)
    }
}

impl Clone for ScriptModuleMetaData {
    /// A cloned metadata block carries the same program text, marks,
    /// classification, HMR flags and accepted deps, the same comment tables
    /// and the same custom entries; only the async flag starts out false: it
    /// records a per-build analysis result and is recomputed for the copy.
    fn clone(&self) -> (r: Self)
        ensures
            r.top_level_mark == self.top_level_mark,
            r.unresolved_mark == self.unresolved_mark,
            r.module_system == self.module_system,
            r.hmr_self_accepted == self.hmr_self_accepted,
            !r.is_async,
            r.ast.body@ == self.ast.body@,
            r.ast.shebang == self.ast.shebang,
            r.hmr_accepted_deps@ == self.hmr_accepted_deps@,
            same_comment_items(self.comments.leading@, r.comments.leading@),
            same_comment_items(self.comments.trailing@, r.comments.trailing@),
            r.custom@.len() == self.custom@.len(),
            forall|i: int|
                0 <= i < self.custom@.len() ==> (#[trigger] r.custom@[i]).0@ == self.custom@[i].0@
                    && r.custom@[i].1@ == self.custom@[i].1@,
    {
        let mut custom: Vec<(String, Vec<u8>)> = Vec::new();
        let mut ci: usize = 0;
        while ci < self.custom.len()
            invariant
                ci <= self.custom@.len(),
                custom@.len() == ci,
                forall|i: int|
                    0 <= i < ci ==> (#[trigger] custom@[i]).0@ == self.custom@[i].0@
                        && custom@[i].1@ == self.custom@[i].1@,
            decreases self.custom@.len() - ci,
        {
            let key = self.custom[ci].0.clone();
            let value = self.custom[ci].1.clone();
            proof {
                assert(value@ =~= self.custom@[ci as int].1@);
            }
            custom.push((key, value));
            ci += 1;
        }
        let mut hmr_accepted_deps: Vec<ModuleId> = Vec::new();
        let mut di: usize = 0;
        while di < self.hmr_accepted_deps.len()
            invariant
                di <= self.hmr_accepted_deps@.len(),
                hmr_accepted_deps@.len() == di,
                forall|i: int|
                    0 <= i < di ==> #[trigger] hmr_accepted_deps@[i] == self.hmr_accepted_deps@[i],
            decreases self.hmr_accepted_deps@.len() - di,
        {
            hmr_accepted_deps.push(self.hmr_accepted_deps[di].clone());
            di += 1;
        }
        let r = ScriptModuleMetaData {
            ast: AstModule {
                body: self.ast.body.clone(),
                shebang: match &self.ast.shebang {
                    Some(s) => Some(s.clone()),
                    None => None,
                },
            },
            top_level_mark: self.top_level_mark,
            unresolved_mark: self.unresolved_mark,
            module_system: self.module_system.clone(),
            hmr_self_accepted: self.hmr_self_accepted,
            hmr_accepted_deps,
            comments: self.comments.clone(),
            is_async: false,
            custom,
        };
        proof {
            assert(r.ast.body@ =~= self.ast.body@);
            assert(r.hmr_accepted_deps@ =~= self.hmr_accepted_deps@);
        }
        r
    }
}

} // verus!
