//! Typed handles to the entities (views and models) the application holds, and to
//! its windows.
use std::any::TypeId;
use std::marker::PhantomData;

use vstd::prelude::*;

verus! {

#[verifier::external_type_specification]
#[verifier::external_body]
pub struct ExTypeId(std::any::TypeId);

/// Calls `TypeId::of`; nothing is stated of the id it returns.
#[verifier::external_body]
fn type_id_of<T: ?Sized + 'static>() -> TypeId {
    TypeId::of::<T>()
}

/// Calls `<TypeId as PartialEq>::eq`, which holds exactly for the same id.
#[verifier::external_body]
pub(crate) fn type_ids_equal(a: &TypeId, b: &TypeId) -> (r: bool)
    ensures
        r == (*a == *b),
{
    *a == *b
}

/// The id of an entity: the key of its slot.
#[derive(Debug, Clone, Copy, PartialEq, Eq, Hash, Structural)]
pub struct EntityId(pub u64);

/// The id of a window: the key of its slot.
#[derive(Debug, Clone, Copy, PartialEq, Eq, Hash, Structural)]
pub struct WindowId(pub u64);

/// An entity of any type: its id and the id of its type.
#[derive(Debug, Clone, Copy)]
pub struct AnyEntity {
    pub entity_id: EntityId,
    pub ty_id: TypeId,
}

impl AnyEntity {
    pub fn new(entity_id: EntityId, ty_id: TypeId) -> (r: Self)
        ensures
            r.entity_id == entity_id,
            r.ty_id == ty_id,
    {
        AnyEntity { entity_id, ty_id }
    }

    /// This entity as one of type `E`, where its type id is `ty`; `None` where it
    /// is of another type.
    pub fn downcast_to<E>(self, ty: TypeId) -> (r: Option<Entity<E>>)
        ensures
            r is Some <==> ty == self.ty_id,
            r matches Some(e) ==> e.any == self,
    {
        if type_ids_equal(&ty, &self.ty_id) {
            Some(Entity { any: self, ty: PhantomData })
        } else {
            None
        }
    }

    /// This entity as one of type `E`, where it is of that type.
    pub fn downcast<E: 'static>(self) -> (r: Option<Entity<E>>)
        ensures
            r matches Some(e) ==> e.any == self,
    {
        let ty = type_id_of::<E>();
        self.downcast_to(ty)
    }
}

/// An entity of type `T`.
#[derive(Debug)]
pub struct Entity<T> {
    pub any: AnyEntity,
    pub ty: PhantomData<T>,
}

impl<T> Clone for Entity<T> {
    fn clone(&self) -> (r: Self)
        ensures
            r.any == self.any,
    {
        Entity { any: self.any, ty: PhantomData }
    }
}

impl<E> Entity<E> {
    /// The handle of the entity with the given id; its type id is that of `E`.
    pub fn new(entity_id: EntityId) -> (r: Self)
        where
            E: 'static,
        ensures
            r.any.entity_id == entity_id,
    {
        Entity { any: AnyEntity::new(entity_id, type_id_of::<E>()), ty: PhantomData }
    }

    pub fn id(&self) -> (r: EntityId)
        ensures
            r == self.any.entity_id,
    {
        self.any.entity_id
    }

    /// The handle without its type.
    pub fn into_any(self) -> (r: AnyEntity)
        ensures
            r == self.any,
    {
        self.any
    }
}

/// An entity whose slot is reserved but whose value is not stored yet.
#[derive(Debug)]
pub struct Slot<T>(pub Entity<T>);

/// An entity's value of type `E`, held in its type-erased box `B`, taken out of the
/// entity map while it is being updated.
#[derive(Debug)]
pub struct Lease<E, B> {
    pub entity: B,
    pub entity_id: EntityId,
    pub entity_ty: PhantomData<E>,
}

impl<E, B> Lease<E, B> {
    pub fn new(entity: B, entity_id: EntityId) -> (r: Self)
        ensures
            r.entity == entity,
            r.entity_id == entity_id,
    {
        Lease { entity, entity_id, entity_ty: PhantomData }
    }
}

/// A window of any root view type: its id and the id of that type.
#[derive(Debug, Clone, Copy)]
pub struct AnyWindowHandle {
    pub window_id: WindowId,
    pub ty: TypeId,
}

impl AnyWindowHandle {
    /// The handle of the window with the given id, for root views of type `W`.
    pub fn new<W: 'static>(window_id: WindowId) -> (r: Self)
        ensures
            r.window_id == window_id,
    {
        AnyWindowHandle { window_id, ty: type_id_of::<W>() }
    }
}

/// A window whose root view has type `W`.
#[derive(Debug)]
pub struct WindowHandle<W> {
    pub handle: AnyWindowHandle,
    pub marker: PhantomData<W>,
}

impl<W> Clone for WindowHandle<W> {
    fn clone(&self) -> (r: Self)
        ensures
            r.handle == self.handle,
    {
        WindowHandle { handle: self.handle, marker: PhantomData }
    }
}

impl<W> Copy for WindowHandle<W> {

}

impl<W> WindowHandle<W> {
    pub fn new(window_id: WindowId) -> (r: Self)
        where
            W: 'static,
        ensures
            r.handle.window_id == window_id,
    {
        WindowHandle { handle: AnyWindowHandle::new::<W>(window_id), marker: PhantomData }
    }

    /// The handle without its type.
    pub fn into_any(self) -> (r: AnyWindowHandle)
        ensures
            r == self.handle,
    {
        self.handle
    }
}

} // verus!
