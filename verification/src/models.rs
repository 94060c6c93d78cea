//! Model routing: the provider/model route a session asks for, the
//! browser-visible descriptor of an accepted route, and the registry that
//! validates routes and keeps them in registration order.
use vstd::prelude::*;
use crate::text::{is_blank, is_blank_str, str_eq};

verus! {

/// Provider/model selection requested by one host session.
#[derive(Clone, Debug, PartialEq, Eq)]
pub struct ModelRoute {
    pub provider: String,
    pub model: String,
    pub reasoning_effort: Option<String>,
}

impl ModelRoute {
    /// A route with no reasoning effort.
    pub fn new(provider: &str, model: &str) -> (r: Self)
        ensures
            r.provider@ == provider@,
            r.model@ == model@,
            r.reasoning_effort is None,
    {
        ModelRoute { provider: String::from_str(provider), model: String::from_str(model), reasoning_effort: None }
    }
}

/// Browser-visible metadata of one accepted route. The route identity is
/// the (provider, model) pair; display names are for people.
#[derive(Clone, Debug, PartialEq, Eq)]
pub struct ModelDescriptor {
    pub provider: String,
    pub provider_display_name: String,
    pub model: String,
    pub model_display_name: String,
}

pub struct DescriptorView {
    pub provider: Seq<char>,
    pub provider_display_name: Seq<char>,
    pub model: Seq<char>,
    pub model_display_name: Seq<char>,
}

impl View for ModelDescriptor {
    type V = DescriptorView;

    open spec fn view(&self) -> DescriptorView {
        DescriptorView {
            provider: self.provider@,
            provider_display_name: self.provider_display_name@,
            model: self.model@,
            model_display_name: self.model_display_name@,
        }
    }
}

impl ModelDescriptor {
    pub fn new(provider: &str, provider_display_name: &str, model: &str, model_display_name: &str) -> (r: Self)
        ensures
            r@ == (DescriptorView {
                provider: provider@,
                provider_display_name: provider_display_name@,
                model: model@,
                model_display_name: model_display_name@,
            }),
    {
        ModelDescriptor {
            provider: String::from_str(provider),
            provider_display_name: String::from_str(provider_display_name),
            model: String::from_str(model),
            model_display_name: String::from_str(model_display_name),
        }
    }

    /// The route this descriptor stands for.
    pub fn route(&self) -> (r: ModelRoute)
        ensures
            r.provider@ == self.provider@,
            r.model@ == self.model@,
            r.reasoning_effort is None,
    {
        ModelRoute::new(self.provider.as_str(), self.model.as_str())
    }

    fn copy(&self) -> (r: Self)
        ensures
            r@ == self@,
    {
        ModelDescriptor::new(
            self.provider.as_str(),
            self.provider_display_name.as_str(),
            self.model.as_str(),
            self.model_display_name.as_str(),
        )
    }
}

#[derive(Clone, Debug, PartialEq, Eq)]
pub enum ModelRegistryError {
    EmptyRoute,
    EmptyDisplayName,
    DuplicateRoute { provider: String, model: String },
    DefaultRouteUnavailable { provider: String, model: String },
}

pub enum ModelRegistryErrorView {
    EmptyRoute,
    EmptyDisplayName,
    DuplicateRoute { provider: Seq<char>, model: Seq<char> },
    DefaultRouteUnavailable { provider: Seq<char>, model: Seq<char> },
}

impl View for ModelRegistryError {
    type V = ModelRegistryErrorView;

    open spec fn view(&self) -> ModelRegistryErrorView {
        match self {
            ModelRegistryError::EmptyRoute => ModelRegistryErrorView::EmptyRoute,
            ModelRegistryError::EmptyDisplayName => ModelRegistryErrorView::EmptyDisplayName,
            ModelRegistryError::DuplicateRoute { provider, model } =>
                ModelRegistryErrorView::DuplicateRoute { provider: provider@, model: model@ },
            ModelRegistryError::DefaultRouteUnavailable { provider, model } =>
                ModelRegistryErrorView::DefaultRouteUnavailable { provider: provider@, model: model@ },
        }
    }
}

pub open spec fn unit_result_view(r: Result<(), ModelRegistryError>) -> Result<(), ModelRegistryErrorView> {
    match r {
        Ok(()) => Ok(()),
        Err(e) => Err(e@),
    }
}

pub open spec fn descriptor_views(v: Seq<ModelDescriptor>) -> Seq<DescriptorView> {
    v.map_values(|d: ModelDescriptor| d@)
}

/// Registered route identities, in order.
pub open spec fn routes_of(ds: Seq<DescriptorView>) -> Seq<(Seq<char>, Seq<char>)> {
    ds.map_values(|d: DescriptorView| (d.provider, d.model))
}

/// Whether `(provider, model)` is one of the registered routes.
pub open spec fn has_route(ds: Seq<DescriptorView>, provider: Seq<char>, model: Seq<char>) -> bool {
    exists|i: int| 0 <= i < ds.len() && #[trigger] ds[i].provider == provider && ds[i].model == model
}

/// No route is registered twice and none is blank.
pub open spec fn registry_wf(ds: Seq<DescriptorView>) -> bool {
    &&& forall|i: int, j: int| 0 <= i < j < ds.len() ==> !(#[trigger] ds[i].provider == #[trigger] ds[j].provider
        && ds[i].model == ds[j].model)
    &&& forall|i: int| 0 <= i < ds.len() ==> !is_blank(#[trigger] ds[i].provider) && !is_blank(ds[i].model)
        && !is_blank(ds[i].provider_display_name) && !is_blank(ds[i].model_display_name)
}

/// What registering `d` on top of `ds` answers.
pub open spec fn register_result(ds: Seq<DescriptorView>, d: DescriptorView) -> Result<(), ModelRegistryErrorView> {
    if is_blank(d.provider) || is_blank(d.model) {
        Err(ModelRegistryErrorView::EmptyRoute)
    } else if is_blank(d.provider_display_name) || is_blank(d.model_display_name) {
        Err(ModelRegistryErrorView::EmptyDisplayName)
    } else if has_route(ds, d.provider, d.model) {
        Err(ModelRegistryErrorView::DuplicateRoute { provider: d.provider, model: d.model })
    } else {
        Ok(())
    }
}

/// Routes bound to an adapter of type `P`, in registration order.
pub struct ModelRegistry<P> {
    entries: Vec<(ModelDescriptor, P)>,
}

impl<P> ModelRegistry<P> {
    /// The registered descriptors, in order.
    pub closed spec fn descriptors(&self) -> Seq<DescriptorView> {
        self.entries@.map_values(|e: (ModelDescriptor, P)| e.0@)
    }

    /// The registered bindings, in the same order.
    pub closed spec fn bindings(&self) -> Seq<P> {
        self.entries@.map_values(|e: (ModelDescriptor, P)| e.1)
    }

    pub fn new() -> (r: Self)
        ensures
            r.descriptors() == Seq::<DescriptorView>::empty(),
            r.bindings() == Seq::<P>::empty(),
            registry_wf(r.descriptors()),
    {
        let r = ModelRegistry { entries: Vec::new() };
        assert(r.descriptors() =~= Seq::<DescriptorView>::empty());
        assert(r.bindings() =~= Seq::<P>::empty());
        r
    }

    /// Whether the registry holds `(provider, model)`.
    fn find(&self, provider: &str, model: &str) -> (r: Option<usize>)
        ensures
            match r {
                Some(i) => i < self.descriptors().len() && self.descriptors()[i as int].provider == provider@
                    && self.descriptors()[i as int].model == model@,
                None => !has_route(self.descriptors(), provider@, model@),
            },
    {
        let mut i: usize = 0;
        while i < self.entries.len()
            invariant
                i <= self.entries@.len(),
                self.descriptors().len() == self.entries@.len(),
                forall|j: int| 0 <= j < i ==> !(#[trigger] self.descriptors()[j].provider == provider@
                    && self.descriptors()[j].model == model@),
            decreases self.entries.len() - i,
        {
            let e = &self.entries[i];
            assert(self.descriptors()[i as int] == e.0@);
            if str_eq(e.0.provider.as_str(), provider) && str_eq(e.0.model.as_str(), model) {
                return Some(i);
            }
            i = i + 1;
        }
        None
    }

    /// Register a route: blank route ids, blank display names and a route
    /// already present are refused; otherwise it is appended.
    pub fn register(&mut self, descriptor: ModelDescriptor, binding: P) -> (r: Result<(), ModelRegistryError>)
        ensures
            unit_result_view(r) == register_result(old(self).descriptors(), descriptor@),
            r is Ok ==> final(self).descriptors() == old(self).descriptors().push(descriptor@)
                && final(self).bindings() == old(self).bindings().push(binding),
            r is Err ==> final(self).descriptors() == old(self).descriptors()
                && final(self).bindings() == old(self).bindings(),
            registry_wf(old(self).descriptors()) ==> registry_wf(final(self).descriptors()),
    {
        if is_blank_str(descriptor.provider.as_str()) || is_blank_str(descriptor.model.as_str()) {
            return Err(ModelRegistryError::EmptyRoute);
        }
        if is_blank_str(descriptor.provider_display_name.as_str()) || is_blank_str(
            descriptor.model_display_name.as_str(),
        ) {
            return Err(ModelRegistryError::EmptyDisplayName);
        }
        if self.find(descriptor.provider.as_str(), descriptor.model.as_str()).is_some() {
            return Err(
                ModelRegistryError::DuplicateRoute {
                    provider: String::from_str(descriptor.provider.as_str()),
                    model: String::from_str(descriptor.model.as_str()),
                },
            );
        }
        let ghost d0 = self.descriptors();
        let ghost b0 = self.bindings();
        let ghost dv = descriptor@;
        proof {
            if registry_wf(d0) {
                law_registration_keeps_routes_unique(d0, dv);
            }
        }
        self.entries.push((descriptor, binding));
        assert(self.descriptors() =~= d0.push(dv));
        assert(self.bindings() =~= b0.push(binding));
        Ok(())
    }

    pub fn can_route(&self, route: &ModelRoute) -> (r: bool)
        ensures
            r == has_route(self.descriptors(), route.provider@, route.model@),
    {
        self.find(route.provider.as_str(), route.model.as_str()).is_some()
    }

    /// The binding registered for `route`, if any.
    pub fn resolve(&self, route: &ModelRoute) -> (r: Option<&P>)
        ensures
            match r {
                Some(b) => exists|i: int| 0 <= i < self.descriptors().len()
                    && #[trigger] self.descriptors()[i].provider == route.provider@
                    && self.descriptors()[i].model == route.model@ && *b == self.bindings()[i],
                None => !has_route(self.descriptors(), route.provider@, route.model@),
            },
    {
        match self.find(route.provider.as_str(), route.model.as_str()) {
            Some(i) => {
                assert(self.bindings()[i as int] == self.entries@[i as int].1);
                Some(&self.entries[i].1)
            },
            None => None,
        }
    }

    /// The model catalog, in registration order.
    pub fn models(&self) -> (r: Vec<ModelDescriptor>)
        ensures
            descriptor_views(r@) == self.descriptors(),
    {
        let mut out: Vec<ModelDescriptor> = Vec::new();
        let mut i: usize = 0;
        while i < self.entries.len()
            invariant
                i <= self.entries@.len(),
                self.descriptors().len() == self.entries@.len(),
                out@.len() == i,
                descriptor_views(out@) == self.descriptors().take(i as int),
            decreases self.entries.len() - i,
        {
            let d = self.entries[i].0.copy();
            assert(self.descriptors()[i as int] == self.entries@[i as int].0@);
            let ghost before = out@;
            out.push(d);
            proof {
                let m = descriptor_views(out@);
                let t = self.descriptors().take(i + 1);
                assert(out@ == before.push(d));
                assert(out@.len() == i + 1);
                assert(before.len() == i);
                assert(t.len() == i + 1);
                assert(m.len() == t.len());
                assert forall|k: int| 0 <= k < m.len() implies m[k] == t[k] by {
                    if k < i {
                        assert(descriptor_views(before)[k] == self.descriptors().take(i as int)[k]);
                    }
                }
                assert(m =~= t);
            }
            i = i + 1;
        }
        assert(self.descriptors().take(self.entries@.len() as int) =~= self.descriptors());
        out
    }

    pub fn is_empty(&self) -> (r: bool)
        ensures
            r == (self.descriptors().len() == 0),
    {
        self.entries.len() == 0
    }

    /// A non-empty registry must serve the default route.
    pub fn check_default_route(&self, route: &ModelRoute) -> (r: Result<(), ModelRegistryError>)
        ensures
            r is Err <==> (self.descriptors().len() > 0 && !has_route(
                self.descriptors(),
                route.provider@,
                route.model@,
            )),
            r matches Err(e) ==> e@ == (ModelRegistryErrorView::DefaultRouteUnavailable {
                provider: route.provider@,
                model: route.model@,
            }),
    {
        if !self.is_empty() && !self.can_route(route) {
            Err(
                ModelRegistryError::DefaultRouteUnavailable {
                    provider: String::from_str(route.provider.as_str()),
                    model: String::from_str(route.model.as_str()),
                },
            )
        } else {
            Ok(())
        }
    }
}

/// Registration keeps the registry well formed: routes stay unique and
/// non-blank, whatever is registered.
pub proof fn law_registration_keeps_routes_unique(ds: Seq<DescriptorView>, d: DescriptorView)
    requires
        registry_wf(ds),
    ensures
        register_result(ds, d) is Ok ==> registry_wf(ds.push(d)),
        register_result(ds, d) is Ok ==> has_route(ds.push(d), d.provider, d.model),
{
    if register_result(ds, d) is Ok {
        let e = ds.push(d);
        assert forall|i: int, j: int| 0 <= i < j < e.len() implies !(#[trigger] e[i].provider == #[trigger] e[j].provider
            && e[i].model == e[j].model) by {
            if j == ds.len() {
                if e[i].provider == e[j].provider && e[i].model == e[j].model {
                    assert(ds[i].provider == d.provider && ds[i].model == d.model);
                }
            }
        }
        assert(e[ds.len() as int] == d);
    }
}

/// Durable work attached during one startup-resume operation.
#[derive(Clone, Debug, PartialEq, Eq)]
pub struct AgentResumeReport {
    pub pending_turns: usize,
    pub pending_next_step: usize,
    /// Internal work id of an open approval turn attached and woken during
    /// startup recovery.
    pub recovered_approval_work_id: Option<String>,
}

impl Default for AgentResumeReport {
    fn default() -> (r: Self)
        ensures
            r.pending_turns == 0,
            r.pending_next_step == 0,
            r.recovered_approval_work_id is None,
    {
        AgentResumeReport { pending_turns: 0, pending_next_step: 0, recovered_approval_work_id: None }
    }
}

#[derive(Clone, Debug, PartialEq, Eq)]
pub enum AgentRuntimeError {
    ModelUnavailable { provider: String, model: String },
    Preparation { message: String },
}

} // verus!
